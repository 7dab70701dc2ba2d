//! Native JSON column content: the JSON value that Toasty's JSON text
//! denotes, its SurrealDB native form, and the strict way back.
//!
//! Parsing JSON text into a [`Json`] value and serializing one back to text
//! are left to the caller; this module decides how a JSON value is stored
//! and which stored values are JSON.

use vstd::prelude::*;
use crate::error::{DriverError, ErrorKind};
use crate::value::{Decimal, FloatBits, Number, SurValue, decimal_from_u64, decimal_wf};

verus! {

/// A JSON number.
#[derive(Clone, Copy, PartialEq, Eq, Structural, Debug)]
pub enum JsonNumber {
    /// A non-negative integer.
    PosInt(u64),
    /// A negative integer.
    NegInt(i64),
    /// A finite float, by its bit pattern.
    Float(FloatBits),
}

/// A JSON value.
#[derive(Debug)]
pub enum Json {
    Null,
    Bool(bool),
    Number(JsonNumber),
    String(String),
    Array(Vec<Json>),
    /// Members in order.
    Object(Vec<(String, Json)>),
}

// ---------------------------------------------------------------------------
// JSON to native
// ---------------------------------------------------------------------------

/// The native form of a JSON number: an integer when it fits `i64`, a
/// decimal for a larger unsigned integer (never rounded through a float), a
/// float otherwise.
pub open spec fn json_number_native(n: JsonNumber) -> Number {
    match n {
        JsonNumber::PosInt(u) => if u <= i64::MAX {
            Number::Int(u as i64)
        } else {
            Number::Decimal(Decimal { negative: false, magnitude: u as u128, scale: 0 })
        },
        JsonNumber::NegInt(i) => Number::Int(i),
        JsonNumber::Float(f) => Number::Float(f),
    }
}

/// `s` is the native form of the JSON value `j`. JSON `null` is the native
/// `NULL` (not `NONE`), and object members are all kept, null ones included.
pub open spec fn json_encodes(j: Json, s: SurValue) -> bool
    decreases j, 1nat,
{
    match j {
        Json::Null => s is Null,
        Json::Bool(b) => s == SurValue::Bool(b),
        Json::Number(n) => s == SurValue::Number(json_number_native(n)),
        Json::String(t) => s matches SurValue::String(u) && u@ == t@,
        Json::Array(xs) => s matches SurValue::Array(ys) && json_encodes_seq(xs@, ys@),
        Json::Object(fs) => s matches SurValue::Object(gs) && json_encodes_fields(fs@, gs@),
    }
}

/// Element by element.
pub open spec fn json_encodes_seq(xs: Seq<Json>, ys: Seq<SurValue>) -> bool
    decreases xs, 0nat,
{
    xs.len() == ys.len() && (xs.len() == 0 || (json_encodes_seq(xs.drop_last(), ys.drop_last())
        && json_encodes(xs.last(), ys.last())))
}

/// Member by member, under the same names.
pub open spec fn json_encodes_fields(fs: Seq<(String, Json)>, gs: Seq<(String, SurValue)>) -> bool
    decreases fs, 0nat,
{
    fs.len() == gs.len() && (fs.len() == 0 || (json_encodes_fields(fs.drop_last(), gs.drop_last())
        && gs.last().0@ == fs.last().0@ && json_encodes(fs.last().1, gs.last().1)))
}

fn number_native(n: JsonNumber) -> (r: Number)
    ensures
        r == json_number_native(n),
{
    match n {
        JsonNumber::PosInt(u) => {
            if u <= 0x7fff_ffff_ffff_ffffu64 {
                Number::Int(u as i64)
            } else {
                Number::Decimal(decimal_from_u64(u))
            }
        },
        JsonNumber::NegInt(i) => Number::Int(i),
        JsonNumber::Float(f) => Number::Float(f),
    }
}

fn items_native(xs: &Vec<Json>, Ghost(whole): Ghost<Json>) -> (r: Vec<SurValue>)
    requires
        whole matches Json::Array(v) && v@ == xs@,
    ensures
        json_encodes_seq(xs@, r@),
    decreases whole, 0nat,
{
    proof {
        assert forall|k: int| 0 <= k < xs@.len() implies decreases_to!(whole => xs@[k]) by {
            let v = whole->Array_0;
            assert(decreases_to!(whole => v));
            assert(decreases_to!(v => v@));
            assert(decreases_to!(v@ => v@[k]));
        }
    }
    let mut out: Vec<SurValue> = Vec::new();
    let n = xs.len();
    let mut i: usize = 0;
    while i < n
        invariant
            n == xs@.len(),
            i <= n,
            forall|k: int| 0 <= k < xs@.len() ==> decreases_to!(whole => xs@[k]),
            json_encodes_seq(xs@.take(i as int), out@),
        decreases n - i,
    {
        proof {
            assert(xs@.take(i + 1).drop_last() =~= xs@.take(i as int));
        }
        let y = json_to_native(&xs[i]);
        let ghost before = out@;
        out.push(y);
        assert(out@.drop_last() =~= before);
        i = i + 1;
    }
    assert(xs@.take(n as int) =~= xs@);
    out
}

fn members_native(fs: &Vec<(String, Json)>, Ghost(whole): Ghost<Json>) -> (r: Vec<(String, SurValue)>)
    requires
        whole matches Json::Object(v) && v@ == fs@,
    ensures
        json_encodes_fields(fs@, r@),
    decreases whole, 0nat,
{
    proof {
        assert forall|k: int| 0 <= k < fs@.len() implies decreases_to!(whole => fs@[k].1) by {
            let v = whole->Object_0;
            assert(decreases_to!(whole => v));
            assert(decreases_to!(v => v@));
            assert(decreases_to!(v@ => v@[k]));
            assert(decreases_to!(v@[k] => v@[k].1));
        }
    }
    let mut out: Vec<(String, SurValue)> = Vec::new();
    let n = fs.len();
    let mut i: usize = 0;
    while i < n
        invariant
            n == fs@.len(),
            i <= n,
            forall|k: int| 0 <= k < fs@.len() ==> decreases_to!(whole => fs@[k].1),
            json_encodes_fields(fs@.take(i as int), out@),
        decreases n - i,
    {
        proof {
            assert(fs@.take(i + 1).drop_last() =~= fs@.take(i as int));
        }
        let y = json_to_native(&fs[i].1);
        let ghost before = out@;
        out.push((fs[i].0.clone(), y));
        assert(out@.drop_last() =~= before);
        i = i + 1;
    }
    assert(fs@.take(n as int) =~= fs@);
    out
}

/// The native value a JSON value is stored as in a native JSON column.
pub fn json_to_native(j: &Json) -> (s: SurValue)
    ensures
        json_encodes(*j, s),
    decreases j, 1nat,
{
    match j {
        Json::Null => SurValue::Null,
        Json::Bool(b) => SurValue::Bool(*b),
        Json::Number(n) => SurValue::Number(number_native(*n)),
        Json::String(t) => SurValue::String(t.clone()),
        Json::Array(xs) => SurValue::Array(items_native(xs, Ghost(*j))),
        Json::Object(fs) => SurValue::Object(members_native(fs, Ghost(*j))),
    }
}

// ---------------------------------------------------------------------------
// Native to JSON
// ---------------------------------------------------------------------------

/// A float is finite: its exponent bits are not all set.
pub open spec fn float_finite(f: FloatBits) -> bool {
    match f {
        FloatBits::Double(b) => (b >> 52u64) & 0x7ffu64 != 0x7ffu64,
        FloatBits::Single(b) => (b >> 23u32) & 0xffu32 != 0xffu32,
    }
}

/// Whether a float is finite.
pub fn is_finite(f: FloatBits) -> (r: bool)
    ensures
        r == float_finite(f),
{
    match f {
        FloatBits::Double(b) => (b >> 52u64) & 0x7ffu64 != 0x7ffu64,
        FloatBits::Single(b) => (b >> 23u32) & 0xffu32 != 0xffu32,
    }
}

/// The JSON number a decimal's canonical text parses as, if it parses as a
/// number.
pub uninterp spec fn decimal_json(d: Decimal) -> Option<JsonNumber>;

/// The JSON number of a decimal that is an integer JSON holds exactly: a
/// scale-0 decimal prints as its digits (with a `-` when negative), and
/// those digits parse as an unsigned integer when they fit `u64`, and
/// negated as a signed one when they fit `i64`. `None` for any other
/// decimal.
pub open spec fn integer_decimal_json(d: Decimal) -> Option<JsonNumber> {
    if d.scale == 0 && !d.negative && d.magnitude <= u64::MAX {
        Some(JsonNumber::PosInt(d.magnitude as u64))
    } else if d.scale == 0 && d.negative && 1 <= d.magnitude <= 0x8000_0000_0000_0000u128 {
        Some(JsonNumber::NegInt((-(d.magnitude as int)) as i64))
    } else {
        None
    }
}

/// The JSON number of a decimal: stated for an integer that JSON holds
/// exactly, named for every other decimal.
pub open spec fn decimal_number(d: Decimal) -> Option<JsonNumber> {
    match integer_decimal_json(d) {
        Some(x) => Some(x),
        None => decimal_json(d),
    }
}

/// The JSON number of a decimal.
///
/// Trusted: the decimal is rebuilt from its parts (`rust_decimal`'s
/// `from_i128_with_scale`, which panics beyond 96 bits or scale 28, hence the
/// precondition, and `set_sign_negative`), rendered with its `Display`, and
/// the text parsed with `serde_json::from_str`; the result is the number
/// parsed (a float by its bits), or `None` when the text does not parse as
/// a JSON number. It depends on the decimal alone. For a scale-0 decimal
/// the text is its digits, `-` first when negative (`rust_decimal`'s
/// `to_str_internal`), which `serde_json` parses as a `u64` when it fits, and
/// when negative as an `i64` when it fits; that much is stated.
#[verifier::external_body]
fn decimal_json_number(d: Decimal) -> (r: Option<JsonNumber>)
    requires
        decimal_wf(d),
    ensures
        r == decimal_json(d),
        integer_decimal_json(d) is Some ==> r == integer_decimal_json(d),
{
    let mut x = rust_decimal::Decimal::from_i128_with_scale(d.magnitude as i128, d.scale);
    x.set_sign_negative(d.negative);
    match serde_json::from_str::<serde_json::Value>(&x.to_string()) {
        Ok(serde_json::Value::Number(n)) => match (n.as_u64(), n.as_i64(), n.as_f64()) {
            (Some(u), _, _) => Some(JsonNumber::PosInt(u)),
            (None, Some(i), _) => Some(JsonNumber::NegInt(i)),
            (None, None, Some(f)) => Some(JsonNumber::Float(FloatBits::Double(f.to_bits()))),
            _ => None,
        },
        _ => None,
    }
}

/// Why a native value is not valid content of a native JSON column.
#[derive(Clone, Copy, PartialEq, Eq, Structural, Debug)]
pub enum JsonIssue {
    /// A `NONE` nested inside the value.
    EmbeddedNone,
    /// A UUID, bytes, record id or other non-JSON value.
    NotJson,
    /// A float that is not finite.
    NonFinite,
    /// A decimal whose text is not a JSON number.
    NotANumber,
}

/// The message of each issue; none echoes the value.
pub open spec fn json_issue_message(issue: JsonIssue) -> Seq<char> {
    match issue {
        JsonIssue::EmbeddedNone => "SurrealDB native JSON contained an embedded NONE value"@,
        JsonIssue::NotJson => "SurrealDB native JSON column contained a non-JSON value"@,
        JsonIssue::NonFinite => "SurrealDB native JSON contained a non-finite number"@,
        JsonIssue::NotANumber => "SurrealDB native JSON decimal did not produce a JSON number"@,
    }
}

/// The issue of a native number, if any.
pub open spec fn number_issue(n: Number) -> Option<JsonIssue> {
    match n {
        Number::Int(_) => None,
        Number::Float(f) => if float_finite(f) {
            None
        } else {
            Some(JsonIssue::NonFinite)
        },
        Number::Decimal(d) => if decimal_wf(d) && decimal_number(d) is Some {
            None
        } else {
            Some(JsonIssue::NotANumber)
        },
    }
}

/// The first issue met walking the value depth-first in order, if any.
pub open spec fn json_issue(s: SurValue) -> Option<JsonIssue>
    decreases s, 1nat,
{
    match s {
        SurValue::Absent => Some(JsonIssue::EmbeddedNone),
        SurValue::Number(n) => number_issue(n),
        SurValue::Null | SurValue::Bool(_) | SurValue::String(_) => None,
        SurValue::Array(xs) => json_issue_seq(xs@),
        SurValue::Object(fs) => json_issue_fields(fs@),
        _ => Some(JsonIssue::NotJson),
    }
}

/// The first issue among the elements, in order.
pub open spec fn json_issue_seq(xs: Seq<SurValue>) -> Option<JsonIssue>
    decreases xs, 0nat,
{
    if xs.len() == 0 {
        None
    } else {
        match json_issue_seq(xs.drop_last()) {
            Some(e) => Some(e),
            None => json_issue(xs.last()),
        }
    }
}

/// The first issue among the member values, in order.
pub open spec fn json_issue_fields(fs: Seq<(String, SurValue)>) -> Option<JsonIssue>
    decreases fs, 0nat,
{
    if fs.len() == 0 {
        None
    } else {
        match json_issue_fields(fs.drop_last()) {
            Some(e) => Some(e),
            None => json_issue(fs.last().1),
        }
    }
}

/// The JSON number of a native number without issue.
pub open spec fn native_json_number(n: Number) -> JsonNumber {
    match n {
        Number::Int(i) => if i >= 0 {
            JsonNumber::PosInt(i as u64)
        } else {
            JsonNumber::NegInt(i)
        },
        Number::Float(f) => JsonNumber::Float(f),
        Number::Decimal(d) => decimal_number(d)->0,
    }
}

/// `j` is the JSON value of the native value `s` (which has no issue).
pub open spec fn json_decodes(s: SurValue, j: Json) -> bool
    decreases s, 1nat,
{
    match s {
        SurValue::Null => j is Null,
        SurValue::Bool(b) => j == Json::Bool(b),
        SurValue::Number(n) => j == Json::Number(native_json_number(n)),
        SurValue::String(t) => j matches Json::String(u) && u@ == t@,
        SurValue::Array(xs) => j matches Json::Array(ys) && json_decodes_seq(xs@, ys@),
        SurValue::Object(fs) => j matches Json::Object(gs) && json_decodes_fields(fs@, gs@),
        _ => false,
    }
}

/// Element by element.
pub open spec fn json_decodes_seq(xs: Seq<SurValue>, ys: Seq<Json>) -> bool
    decreases xs, 0nat,
{
    xs.len() == ys.len() && (xs.len() == 0 || (json_decodes_seq(xs.drop_last(), ys.drop_last())
        && json_decodes(xs.last(), ys.last())))
}

/// Member by member, under the same names.
pub open spec fn json_decodes_fields(fs: Seq<(String, SurValue)>, gs: Seq<(String, Json)>) -> bool
    decreases fs, 0nat,
{
    fs.len() == gs.len() && (fs.len() == 0 || (json_decodes_fields(fs.drop_last(), gs.drop_last())
        && gs.last().0@ == fs.last().0@ && json_decodes(fs.last().1, gs.last().1)))
}

fn issue_error(issue: JsonIssue) -> (e: DriverError)
    ensures
        e.kind == ErrorKind::SerializationFailure,
        e.message@ == json_issue_message(issue),
{
    match issue {
        JsonIssue::EmbeddedNone => DriverError::new(
            ErrorKind::SerializationFailure,
            "SurrealDB native JSON contained an embedded NONE value",
        ),
        JsonIssue::NotJson => DriverError::new(
            ErrorKind::SerializationFailure,
            "SurrealDB native JSON column contained a non-JSON value",
        ),
        JsonIssue::NonFinite => DriverError::new(
            ErrorKind::SerializationFailure,
            "SurrealDB native JSON contained a non-finite number",
        ),
        JsonIssue::NotANumber => DriverError::new(
            ErrorKind::SerializationFailure,
            "SurrealDB native JSON decimal did not produce a JSON number",
        ),
    }
}

fn number_json(n: Number) -> (r: Result<JsonNumber, DriverError>)
    ensures
        r is Ok <==> number_issue(n) is None,
        r matches Ok(x) ==> x == native_json_number(n),
        r matches Err(e) ==> e.kind == ErrorKind::SerializationFailure && e.message@ == json_issue_message(
            number_issue(n)->0,
        ),
{
    match n {
        Number::Int(i) => {
            if i >= 0 {
                Ok(JsonNumber::PosInt(i as u64))
            } else {
                Ok(JsonNumber::NegInt(i))
            }
        },
        Number::Float(f) => {
            if is_finite(f) {
                Ok(JsonNumber::Float(f))
            } else {
                Err(issue_error(JsonIssue::NonFinite))
            }
        },
        Number::Decimal(d) => {
            if d.magnitude >= 0x1_0000_0000_0000_0000_0000_0000u128 || d.scale > 28 {
                return Err(issue_error(JsonIssue::NotANumber));
            }
            match decimal_json_number(d) {
                Some(x) => Ok(x),
                None => Err(issue_error(JsonIssue::NotANumber)),
            }
        },
    }
}

proof fn lemma_issue_seq_prefix(xs: Seq<SurValue>, i: int, n: int)
    requires
        0 < i <= n <= xs.len(),
        json_issue_seq(xs.take(i)) is Some,
    ensures
        json_issue_seq(xs.take(n)) == json_issue_seq(xs.take(i)),
    decreases n - i,
{
    if i < n {
        assert(xs.take(i + 1).drop_last() =~= xs.take(i));
        lemma_issue_seq_prefix(xs, i + 1, n);
    }
}

proof fn lemma_issue_fields_prefix(fs: Seq<(String, SurValue)>, i: int, n: int)
    requires
        0 < i <= n <= fs.len(),
        json_issue_fields(fs.take(i)) is Some,
    ensures
        json_issue_fields(fs.take(n)) == json_issue_fields(fs.take(i)),
    decreases n - i,
{
    if i < n {
        assert(fs.take(i + 1).drop_last() =~= fs.take(i));
        lemma_issue_fields_prefix(fs, i + 1, n);
    }
}

fn items_json(xs: &Vec<SurValue>, Ghost(whole): Ghost<SurValue>) -> (r: Result<Vec<Json>, DriverError>)
    requires
        whole matches SurValue::Array(v) && v@ == xs@,
    ensures
        r is Ok <==> json_issue_seq(xs@) is None,
        r matches Ok(ys) ==> json_decodes_seq(xs@, ys@),
        r matches Err(e) ==> e.kind == ErrorKind::SerializationFailure && e.message@ == json_issue_message(
            json_issue_seq(xs@)->0,
        ),
    decreases whole, 0nat,
{
    proof {
        assert forall|k: int| 0 <= k < xs@.len() implies decreases_to!(whole => xs@[k]) by {
            let v = whole->Array_0;
            assert(decreases_to!(whole => v));
            assert(decreases_to!(v => v@));
            assert(decreases_to!(v@ => v@[k]));
        }
    }
    let mut out: Vec<Json> = Vec::new();
    let n = xs.len();
    let mut i: usize = 0;
    while i < n
        invariant
            n == xs@.len(),
            i <= n,
            forall|k: int| 0 <= k < xs@.len() ==> decreases_to!(whole => xs@[k]),
            json_issue_seq(xs@.take(i as int)) is None,
            json_decodes_seq(xs@.take(i as int), out@),
        decreases n - i,
    {
        proof {
            assert(xs@.take(i + 1).drop_last() =~= xs@.take(i as int));
            assert(xs@.take(i + 1).last() == xs@[i as int]);
        }
        let y = match surreal_to_json(&xs[i]) {
            Ok(y) => y,
            Err(e) => {
                proof {
                    lemma_issue_seq_prefix(xs@, i as int + 1, n as int);
                    assert(xs@.take(n as int) =~= xs@);
                }
                return Err(e);
            },
        };
        let ghost before = out@;
        out.push(y);
        assert(out@.drop_last() =~= before);
        i = i + 1;
    }
    assert(xs@.take(n as int) =~= xs@);
    Ok(out)
}

fn members_json(fs: &Vec<(String, SurValue)>, Ghost(whole): Ghost<SurValue>) -> (r: Result<Vec<(String, Json)>, DriverError>)
    requires
        whole matches SurValue::Object(v) && v@ == fs@,
    ensures
        r is Ok <==> json_issue_fields(fs@) is None,
        r matches Ok(gs) ==> json_decodes_fields(fs@, gs@),
        r matches Err(e) ==> e.kind == ErrorKind::SerializationFailure && e.message@ == json_issue_message(
            json_issue_fields(fs@)->0,
        ),
    decreases whole, 0nat,
{
    proof {
        assert forall|k: int| 0 <= k < fs@.len() implies decreases_to!(whole => fs@[k].1) by {
            let v = whole->Object_0;
            assert(decreases_to!(whole => v));
            assert(decreases_to!(v => v@));
            assert(decreases_to!(v@ => v@[k]));
            assert(decreases_to!(v@[k] => v@[k].1));
        }
    }
    let mut out: Vec<(String, Json)> = Vec::new();
    let n = fs.len();
    let mut i: usize = 0;
    while i < n
        invariant
            n == fs@.len(),
            i <= n,
            forall|k: int| 0 <= k < fs@.len() ==> decreases_to!(whole => fs@[k].1),
            json_issue_fields(fs@.take(i as int)) is None,
            json_decodes_fields(fs@.take(i as int), out@),
        decreases n - i,
    {
        proof {
            assert(fs@.take(i + 1).drop_last() =~= fs@.take(i as int));
            assert(fs@.take(i + 1).last() == fs@[i as int]);
        }
        let y = match surreal_to_json(&fs[i].1) {
            Ok(y) => y,
            Err(e) => {
                proof {
                    lemma_issue_fields_prefix(fs@, i as int + 1, n as int);
                    assert(fs@.take(n as int) =~= fs@);
                }
                return Err(e);
            },
        };
        let ghost before = out@;
        out.push((fs[i].0.clone(), y));
        assert(out@.drop_last() =~= before);
        i = i + 1;
    }
    assert(fs@.take(n as int) =~= fs@);
    Ok(out)
}

/// Converts a native value read from a native JSON column into the JSON
/// value it holds, strictly: only JSON-compatible values convert (a `NONE`
/// inside the value, a non-finite float, a UUID, bytes or a record id are
/// refused, the first met in order).
pub fn surreal_to_json(s: &SurValue) -> (r: Result<Json, DriverError>)
    ensures
        r is Ok <==> json_issue(*s) is None,
        r matches Ok(j) ==> json_decodes(*s, j),
        r matches Err(e) ==> e.kind == ErrorKind::SerializationFailure && e.message@ == json_issue_message(
            json_issue(*s)->0,
        ),
    decreases s, 1nat,
{
    match s {
        SurValue::Null => Ok(Json::Null),
        SurValue::Bool(b) => Ok(Json::Bool(*b)),
        SurValue::Number(n) => {
            let x = number_json(*n)?;
            Ok(Json::Number(x))
        },
        SurValue::String(t) => Ok(Json::String(t.clone())),
        SurValue::Array(xs) => {
            let ys = items_json(xs, Ghost(*s))?;
            Ok(Json::Array(ys))
        },
        SurValue::Object(fs) => {
            let gs = members_json(fs, Ghost(*s))?;
            Ok(Json::Object(gs))
        },
        SurValue::Absent => Err(issue_error(JsonIssue::EmbeddedNone)),
        _ => Err(issue_error(JsonIssue::NotJson)),
    }
}

} // verus!
