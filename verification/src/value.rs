//! The value codec between Toasty values and SurrealDB's native values.
//!
//! Values cross to SurrealDB as native values so that bytes, UUIDs and other
//! typed values keep their representation. Floating-point numbers are carried
//! by their IEEE-754 bit patterns and never computed with here; temporal,
//! decimal and network values are stored as their canonical text.

use vstd::prelude::*;
use crate::error::{DriverError, ErrorKind};
use crate::schema::{Column, Scalar, StorageType, Type};
use crate::text::{push_decimal, spec_decimal};
use crate::json::{Json, json_decodes, json_issue, json_issue_message, surreal_to_json};

verus! {

/// A SurrealDB decimal: sign, magnitude (below 2^96) and scale (at most 28).
#[derive(Clone, Copy, PartialEq, Eq, Structural, Debug)]
pub struct Decimal {
    pub negative: bool,
    pub magnitude: u128,
    pub scale: u32,
}

/// A floating-point number by its bit pattern.
#[derive(Clone, Copy, PartialEq, Eq, Structural, Debug)]
pub enum FloatBits {
    /// An `f64`.
    Double(u64),
    /// The `f64` that an `f32` widens to.
    Single(u32),
}

/// A SurrealDB number.
#[derive(Clone, Copy, PartialEq, Eq, Structural, Debug)]
pub enum Number {
    Int(i64),
    Float(FloatBits),
    Decimal(Decimal),
}

/// A Toasty value.
#[derive(Debug)]
pub enum Value {
    Null,
    Bool(bool),
    I8(i8),
    I16(i16),
    I32(i32),
    I64(i64),
    U8(u8),
    U16(u16),
    U32(u32),
    U64(u64),
    /// An `f32` by its bit pattern.
    F32(u32),
    /// An `f64` by its bit pattern.
    F64(u64),
    String(String),
    Bytes(Vec<u8>),
    Uuid(u128),
    List(Vec<Value>),
    Record(Vec<Value>),
    Object(Vec<(String, Value)>),
    /// A temporal, decimal or network value, by its canonical text form.
    Stored(String),
    /// A value with no SurrealDB encoding, by its description.
    Opaque(String),
    /// Decoded: the value of the scalar type that the engine derives from a
    /// number it cannot narrow exactly (a float, or a decimal narrowed to an
    /// integer type).
    FromNumber(Scalar, Number),
    /// Decoded: text to be cast to the column type (temporal, decimal, network).
    FromText(Type, String),
    /// Decoded: the JSON value read from a native JSON column, which the
    /// engine receives as its serialized JSON text.
    JsonText(Json),
}

/// A SurrealDB native value.
#[derive(Debug)]
pub enum SurValue {
    /// The absent value `NONE`.
    Absent,
    /// The null value `NULL`.
    Null,
    Bool(bool),
    Number(Number),
    String(String),
    Bytes(Vec<u8>),
    Uuid(u128),
    Array(Vec<SurValue>),
    /// Object entries; an entry's name is looked up by its first occurrence.
    Object(Vec<(String, SurValue)>),
    RecordId(RecordId),
    /// The native value of this (validated) JSON text.
    Json(String),
    /// A value of a kind the driver does not decode, by its description.
    Other(String),
}

/// A SurrealDB record id: `table:key`.
#[derive(Debug)]
pub struct RecordId {
    pub table: String,
    pub key: RecordKey,
}

/// The key part of a record id.
#[derive(Debug)]
pub enum RecordKey {
    Number(i64),
    String(String),
    Uuid(u128),
    Array(Vec<SurValue>),
    /// A key of a kind the driver does not decode, by its description.
    Other(String),
}

// ---------------------------------------------------------------------------
// Encoding
// ---------------------------------------------------------------------------

/// The value encodes without error: it holds no opaque or decoded-only value
/// (null object fields are omitted and so never encoded).
pub open spec fn encodable(v: Value) -> bool
    decreases v, 1nat,
{
    match v {
        Value::List(xs) => encodable_seq(xs@),
        Value::Record(xs) => encodable_seq(xs@),
        Value::Object(fs) => encodable_fields(fs@),
        Value::Opaque(_) | Value::FromNumber(_, _) | Value::FromText(_, _) | Value::JsonText(_) => false,
        _ => true,
    }
}

/// Every value of the sequence encodes.
pub open spec fn encodable_seq(xs: Seq<Value>) -> bool
    decreases xs, 0nat,
{
    xs.len() == 0 || (encodable_seq(xs.drop_last()) && encodable(xs.last()))
}

/// Every non-null field value encodes.
pub open spec fn encodable_fields(fs: Seq<(String, Value)>) -> bool
    decreases fs, 0nat,
{
    fs.len() == 0 || (encodable_fields(fs.drop_last()) && (fs.last().1 is Null || encodable(
        fs.last().1,
    )))
}

/// The native encoding of an integer that fits `i64`.
pub open spec fn int_value(i: int) -> SurValue {
    SurValue::Number(Number::Int(i as i64))
}

/// `s` is the native encoding of `v`. Integers become SurrealDB integers; a
/// `u64` above `i64::MAX` becomes a decimal so its magnitude is kept; floats
/// keep their bits; lists and records become arrays; objects drop their null
/// fields so that an absent field reads back as `NONE`; temporal, decimal and
/// network values become their canonical text.
pub open spec fn encodes(v: Value, s: SurValue) -> bool
    decreases v, 1nat,
{
    match v {
        Value::Null => s is Null,
        Value::Bool(b) => s == SurValue::Bool(b),
        Value::I8(x) => s == int_value(x as int),
        Value::I16(x) => s == int_value(x as int),
        Value::I32(x) => s == int_value(x as int),
        Value::I64(x) => s == int_value(x as int),
        Value::U8(x) => s == int_value(x as int),
        Value::U16(x) => s == int_value(x as int),
        Value::U32(x) => s == int_value(x as int),
        Value::U64(x) => if x <= i64::MAX {
            s == int_value(x as int)
        } else {
            s == SurValue::Number(
                Number::Decimal(Decimal { negative: false, magnitude: x as u128, scale: 0 }),
            )
        },
        Value::F32(b) => s == SurValue::Number(Number::Float(FloatBits::Single(b))),
        Value::F64(b) => s == SurValue::Number(Number::Float(FloatBits::Double(b))),
        Value::String(t) => s matches SurValue::String(u) && u@ == t@,
        Value::Stored(t) => s matches SurValue::String(u) && u@ == t@,
        Value::Bytes(b) => s matches SurValue::Bytes(c) && c@ == b@,
        Value::Uuid(u) => s == SurValue::Uuid(u),
        Value::List(xs) => s matches SurValue::Array(ys) && encodes_seq(xs@, ys@),
        Value::Record(xs) => s matches SurValue::Array(ys) && encodes_seq(xs@, ys@),
        Value::Object(fs) => s matches SurValue::Object(gs) && encodes_fields(fs@, gs@),
        _ => false,
    }
}

/// Element by element encoding.
pub open spec fn encodes_seq(xs: Seq<Value>, ys: Seq<SurValue>) -> bool
    decreases xs, 0nat,
{
    xs.len() == ys.len() && (xs.len() == 0 || (encodes_seq(xs.drop_last(), ys.drop_last())
        && encodes(xs.last(), ys.last())))
}

/// `gs` holds, in order, the non-null fields of `fs` under the same names
/// with their values encoded.
pub open spec fn encodes_fields(fs: Seq<(String, Value)>, gs: Seq<(String, SurValue)>) -> bool
    decreases fs, 0nat,
{
    if fs.len() == 0 {
        gs.len() == 0
    } else if fs.last().1 is Null {
        encodes_fields(fs.drop_last(), gs)
    } else {
        &&& gs.len() > 0
        &&& gs.last().0@ == fs.last().0@
        &&& encodes(fs.last().1, gs.last().1)
        &&& encodes_fields(fs.drop_last(), gs.drop_last())
    }
}

/// The decimal form of a `u64` (used for values above `i64::MAX`).
///
/// Trusted: `rust_decimal::Decimal::from(u64)` is the non-negative decimal
/// whose mantissa is the integer and whose scale is zero.
#[verifier::external_body]
pub(crate) fn decimal_from_u64(v: u64) -> (d: Decimal)
    ensures
        d == (Decimal { negative: false, magnitude: v as u128, scale: 0 }),
{
    let d = rust_decimal::Decimal::from(v);
    Decimal { negative: d.is_sign_negative(), magnitude: d.mantissa().unsigned_abs(), scale: d.scale() }
}

/// A copy of a byte vector.
fn copy_bytes(b: &Vec<u8>) -> (r: Vec<u8>)
    ensures
        r@ == b@,
{
    let mut out: Vec<u8> = Vec::new();
    let n = b.len();
    let mut i: usize = 0;
    while i < n
        invariant
            n == b@.len(),
            i <= n,
            out@ == b@.take(i as int),
        decreases n - i,
    {
        out.push(b[i]);
        assert(b@.take(i + 1) =~= b@.take(i as int).push(b@[i as int]));
        i = i + 1;
    }
    assert(b@.take(n as int) =~= b@);
    out
}

/// The error for a value that has no SurrealDB encoding.
/// The message of a value that does not encode: that of the first item or
/// field (in order) that does not encode, and for an opaque value its
/// description after a fixed prefix.
pub open spec fn encode_fault(v: Value) -> Seq<char>
    decreases v, 1nat,
{
    match v {
        Value::List(xs) => encode_fault_seq(xs@),
        Value::Record(xs) => encode_fault_seq(xs@),
        Value::Object(fs) => encode_fault_fields(fs@),
        Value::Opaque(d) => "SurrealDB driver cannot encode value variant"@ + ": "@ + d@,
        _ => "SurrealDB driver cannot encode value variant"@,
    }
}

/// The message of the first value of the sequence that does not encode.
pub open spec fn encode_fault_seq(xs: Seq<Value>) -> Seq<char>
    decreases xs, 0nat,
{
    if xs.len() == 0 {
        Seq::empty()
    } else if !encodable_seq(xs.drop_last()) {
        encode_fault_seq(xs.drop_last())
    } else {
        encode_fault(xs.last())
    }
}

/// The message of the first non-null field value that does not encode.
pub open spec fn encode_fault_fields(fs: Seq<(String, Value)>) -> Seq<char>
    decreases fs, 0nat,
{
    if fs.len() == 0 {
        Seq::empty()
    } else if !encodable_fields(fs.drop_last()) {
        encode_fault_fields(fs.drop_last())
    } else {
        encode_fault(fs.last().1)
    }
}

fn cannot_encode(v: &Value) -> (e: DriverError)
    requires
        !(v is List || v is Record || v is Object),
    ensures
        e.kind == ErrorKind::UnsupportedFeature,
        e.message@ == encode_fault(*v),
{
    let mut message = String::new();
    message.append("SurrealDB driver cannot encode value variant");
    match v {
        Value::Opaque(d) => {
            message.append(": ");
            message.append(d.as_str());
        },
        _ => {},
    }
    assert(message@ =~= encode_fault(*v));
    DriverError { kind: ErrorKind::UnsupportedFeature, message }
}

/// Encodes the items of a list or record.
fn encode_items(xs: &Vec<Value>, Ghost(whole): Ghost<Value>) -> (r: Result<Vec<SurValue>, DriverError>)
    requires
        (whole matches Value::List(v) && v@ == xs@) || (whole matches Value::Record(v) && v@ == xs@),
    ensures
        r is Ok <==> encodable_seq(xs@),
        match r {
            Ok(ys) => encodes_seq(xs@, ys@),
            Err(e) => e.kind == ErrorKind::UnsupportedFeature && e.message@ == encode_fault_seq(xs@),
        },
    decreases whole, 0nat,
{
    proof {
        assert forall|k: int| 0 <= k < xs@.len() implies decreases_to!(whole => xs@[k]) by {
            if whole is List {
                let v = whole->List_0;
                assert(decreases_to!(whole => v));
                assert(decreases_to!(v => v@));
                assert(decreases_to!(v@ => v@[k]));
            } else {
                let v = whole->Record_0;
                assert(decreases_to!(whole => v));
                assert(decreases_to!(v => v@));
                assert(decreases_to!(v@ => v@[k]));
            }
        }
    }
    let mut out: Vec<SurValue> = Vec::new();
    let n = xs.len();
    let mut i: usize = 0;
    while i < n
        invariant
            n == xs@.len(),
            i <= n,
            forall|k: int| 0 <= k < xs@.len() ==> decreases_to!(whole => xs@[k]),
            encodable_seq(xs@.take(i as int)),
            encodes_seq(xs@.take(i as int), out@),
        decreases n - i,
    {
        proof {
            assert(xs@.take(i + 1).drop_last() =~= xs@.take(i as int));
        }
        let y = match to_surreal(&xs[i]) {
            Ok(y) => y,
            Err(e) => {
                proof {
                    assert(xs@.take(i + 1).last() == xs@[i as int]);
                    assert(!encodable_seq(xs@.take(i + 1)));
                    lemma_encodable_seq_prefix(xs@, i as int + 1, n as int);
                    assert(xs@.take(n as int) =~= xs@);
                }
                return Err(e);
            },
        };
        let ghost before = out@;
        out.push(y);
        assert(out@.drop_last() =~= before);
        i = i + 1;
    }
    assert(xs@.take(n as int) =~= xs@);
    Ok(out)
}

/// A sequence whose prefix has a value that does not encode does not encode.
proof fn lemma_encodable_seq_prefix(xs: Seq<Value>, i: int, n: int)
    requires
        0 < i <= n <= xs.len(),
        !encodable_seq(xs.take(i)),
    ensures
        !encodable_seq(xs.take(n)),
        encode_fault_seq(xs.take(n)) == encode_fault_seq(xs.take(i)),
    decreases n - i,
{
    if i < n {
        assert(xs.take(i + 1).drop_last() =~= xs.take(i));
        lemma_encodable_seq_prefix(xs, i + 1, n);
    }
}

/// A field list whose prefix has a field that does not encode does not encode.
proof fn lemma_encodable_fields_prefix(fs: Seq<(String, Value)>, i: int, n: int)
    requires
        0 < i <= n <= fs.len(),
        !encodable_fields(fs.take(i)),
    ensures
        !encodable_fields(fs.take(n)),
        encode_fault_fields(fs.take(n)) == encode_fault_fields(fs.take(i)),
    decreases n - i,
{
    if i < n {
        assert(fs.take(i + 1).drop_last() =~= fs.take(i));
        lemma_encodable_fields_prefix(fs, i + 1, n);
    }
}

/// Encodes the non-null fields of an object.
fn encode_fields(fs: &Vec<(String, Value)>, Ghost(whole): Ghost<Value>) -> (r: Result<Vec<(String, SurValue)>, DriverError>)
    requires
        whole matches Value::Object(v) && v@ == fs@,
    ensures
        r is Ok <==> encodable_fields(fs@),
        match r {
            Ok(gs) => encodes_fields(fs@, gs@),
            Err(e) => e.kind == ErrorKind::UnsupportedFeature && e.message@ == encode_fault_fields(fs@),
        },
    decreases whole, 0nat,
{
    proof {
        assert forall|k: int| 0 <= k < fs@.len() implies decreases_to!(whole => fs@[k].1) by {
            let v = whole->Object_0;
            assert(decreases_to!(whole => v));
            assert(decreases_to!(v => v@));
            assert(decreases_to!(v@ => v@[k]));
            assert(decreases_to!(v@[k] => v@[k].1));
        }
    }
    let mut out: Vec<(String, SurValue)> = Vec::new();
    let n = fs.len();
    let mut i: usize = 0;
    while i < n
        invariant
            n == fs@.len(),
            i <= n,
            forall|k: int| 0 <= k < fs@.len() ==> decreases_to!(whole => fs@[k].1),
            encodable_fields(fs@.take(i as int)),
            encodes_fields(fs@.take(i as int), out@),
        decreases n - i,
    {
        proof {
            assert(fs@.take(i + 1).drop_last() =~= fs@.take(i as int));
        }
        let (name, val) = &fs[i];
        match val {
            Value::Null => {},
            _ => {
                let y = match to_surreal(val) {
                    Ok(y) => y,
                    Err(e) => {
                        proof {
                            assert(fs@.take(i + 1).last() == fs@[i as int]);
                            assert(!encodable_fields(fs@.take(i + 1)));
                            lemma_encodable_fields_prefix(fs@, i as int + 1, n as int);
                            assert(fs@.take(n as int) =~= fs@);
                        }
                        return Err(e);
                    },
                };
                let ghost before = out@;
                out.push((name.clone(), y));
                assert(out@.drop_last() =~= before);
            },
        }
        i = i + 1;
    }
    assert(fs@.take(n as int) =~= fs@);
    Ok(out)
}

/// Encodes a Toasty value as a native SurrealDB value for binding.
#[verifier::spinoff_prover]
pub fn to_surreal(value: &Value) -> (r: Result<SurValue, DriverError>)
    ensures
        r is Ok <==> encodable(*value),
        match r {
            Ok(s) => encodes(*value, s),
            Err(e) => e.kind == ErrorKind::UnsupportedFeature && e.message@ == encode_fault(*value),
        },
    decreases value, 1nat,
{
    match value {
        Value::Null => Ok(SurValue::Null),
        Value::Bool(b) => Ok(SurValue::Bool(*b)),
        Value::I8(x) => Ok(SurValue::Number(Number::Int(*x as i64))),
        Value::I16(x) => Ok(SurValue::Number(Number::Int(*x as i64))),
        Value::I32(x) => Ok(SurValue::Number(Number::Int(*x as i64))),
        Value::I64(x) => Ok(SurValue::Number(Number::Int(*x))),
        Value::U8(x) => Ok(SurValue::Number(Number::Int(*x as i64))),
        Value::U16(x) => Ok(SurValue::Number(Number::Int(*x as i64))),
        Value::U32(x) => Ok(SurValue::Number(Number::Int(*x as i64))),
        Value::U64(x) => {
            if *x <= 0x7fff_ffff_ffff_ffffu64 {
                Ok(SurValue::Number(Number::Int(*x as i64)))
            } else {
                Ok(SurValue::Number(Number::Decimal(decimal_from_u64(*x))))
            }
        },
        Value::F32(b) => Ok(SurValue::Number(Number::Float(FloatBits::Single(*b)))),
        Value::F64(b) => Ok(SurValue::Number(Number::Float(FloatBits::Double(*b)))),
        Value::String(t) => Ok(SurValue::String(t.clone())),
        Value::Stored(t) => Ok(SurValue::String(t.clone())),
        Value::Bytes(b) => Ok(SurValue::Bytes(copy_bytes(b))),
        Value::Uuid(u) => Ok(SurValue::Uuid(*u)),
        Value::List(xs) => match encode_items(xs, Ghost(*value)) {
            Ok(ys) => Ok(SurValue::Array(ys)),
            Err(e) => Err(e),
        },
        Value::Record(xs) => match encode_items(xs, Ghost(*value)) {
            Ok(ys) => Ok(SurValue::Array(ys)),
            Err(e) => Err(e),
        },
        Value::Object(fs) => match encode_fields(fs, Ghost(*value)) {
            Ok(gs) => Ok(SurValue::Object(gs)),
            Err(e) => Err(e),
        },
        _ => Err(cannot_encode(value)),
    }
}

// ---------------------------------------------------------------------------
// Encoding for a column's storage type
// ---------------------------------------------------------------------------

/// Where JSON text fails to parse: the (line, column) serde_json reports, or
/// `None` for valid JSON.
pub uninterp spec fn json_syntax_error(text: Seq<char>) -> Option<(usize, usize)>;

/// Checks that `text` is valid JSON.
///
/// Trusted: the result is the line and column of the first syntax error that
/// `serde_json::from_str` reports for the text, or `None` when it parses; it
/// depends on the text alone.
#[verifier::external_body]
fn check_json_text(text: &str) -> (r: Option<(usize, usize)>)
    ensures
        r == json_syntax_error(text@),
{
    match serde_json::from_str::<serde_json::Value>(text) {
        Ok(_) => None,
        Err(e) => Some((e.line(), e.column())),
    }
}

/// The message for JSON text that does not parse; it names the position only,
/// never the text.
pub open spec fn invalid_json_message(line: usize, column: usize) -> Seq<char> {
    "invalid JSON for a SurrealDB native JSON column at line "@ + spec_decimal(line as nat)
        + ", column "@ + spec_decimal(column as nat)
}

/// A value encodes for a column of storage type `st`: a database null or
/// valid JSON text for a JSON column, an encodable value otherwise.
pub open spec fn storage_ok(st: StorageType, v: Value) -> bool {
    if st is Json {
        match v {
            Value::Null => true,
            Value::String(t) => json_syntax_error(t@) is None,
            _ => false,
        }
    } else {
        encodable(v)
    }
}

/// `s` is the encoding of `v` for a column of storage type `st`.
pub open spec fn storage_encodes(st: StorageType, v: Value, s: SurValue) -> bool {
    if st is Json {
        match v {
            Value::Null => s is Absent,
            Value::String(t) => s matches SurValue::Json(u) && u@ == t@,
            _ => false,
        }
    } else {
        encodes(v, s)
    }
}

/// The message of a value that does not encode for storage type `st`.
pub open spec fn storage_fault(st: StorageType, v: Value) -> Seq<char> {
    if st is Json {
        match v {
            Value::String(t) => match json_syntax_error(t@) {
                Some((line, column)) => invalid_json_message(line, column),
                None => Seq::empty(),
            },
            _ => "SurrealDB native JSON columns require serialized JSON text or a database null"@,
        }
    } else {
        encode_fault(v)
    }
}

/// The kind of error a value that does not encode for storage type `st` gets.
pub open spec fn storage_error_kind(st: StorageType) -> ErrorKind {
    if st is Json {
        ErrorKind::SerializationFailure
    } else {
        ErrorKind::UnsupportedFeature
    }
}

/// Encodes a value for a column of the given storage type.
///
/// Native JSON values cross the driver boundary as serialized JSON text and
/// are told apart from ordinary text only by the storage type. A database
/// null becomes `NONE`; JSON text becomes the native value it denotes (so the
/// text `null` is the JSON literal `NULL`); anything else is refused.
pub fn to_surreal_for_storage(value: &Value, storage_ty: &StorageType) -> (r: Result<SurValue, DriverError>)
    ensures
        r is Ok <==> storage_ok(*storage_ty, *value),
        r matches Ok(s) ==> storage_encodes(*storage_ty, *value, s),
        r matches Err(e) ==> e.kind == storage_error_kind(*storage_ty) && e.message@ == storage_fault(*storage_ty, *value),
        storage_ty is Json ==> match *value {
            Value::Null => r matches Ok(SurValue::Absent),
            Value::String(t) => match json_syntax_error(t@) {
                Some(p) => r matches Err(e) && e.kind == ErrorKind::SerializationFailure
                    && e.message@ == invalid_json_message(p.0, p.1),
                None => r matches Ok(SurValue::Json(u)) && u@ == t@,
            },
            _ => r matches Err(e) && e.kind == ErrorKind::SerializationFailure && e.message@
                == "SurrealDB native JSON columns require serialized JSON text or a database null"@,
        },
        !(storage_ty is Json) ==> (r is Ok <==> encodable(*value)) && match r {
            Ok(s) => encodes(*value, s),
            Err(e) => e.kind == ErrorKind::UnsupportedFeature && e.message@ == encode_fault(*value),
        },
{
    if storage_ty.is_json() {
        match value {
            Value::Null => Ok(SurValue::Absent),
            Value::String(text) => match check_json_text(text.as_str()) {
                Some((line, column)) => {
                    let mut message = String::new();
                    message.append("invalid JSON for a SurrealDB native JSON column at line ");
                    push_decimal(&mut message, line as u64);
                    message.append(", column ");
                    push_decimal(&mut message, column as u64);
                    assert(message@ =~= invalid_json_message(line, column));
                    Err(DriverError { kind: ErrorKind::SerializationFailure, message })
                },
                None => Ok(SurValue::Json(text.clone())),
            },
            _ => Err(
                DriverError::new(
                    ErrorKind::SerializationFailure,
                    "SurrealDB native JSON columns require serialized JSON text or a database null",
                ),
            ),
        }
    } else {
        to_surreal(value)
    }
}

/// Encodes a value for the given column (see [`to_surreal_for_storage`]).
pub fn to_surreal_for_column(value: &Value, column: &Column) -> (r: Result<SurValue, DriverError>)
    ensures
        r is Ok <==> storage_ok(column.storage_ty, *value),
        r matches Ok(s) ==> storage_encodes(column.storage_ty, *value, s),
        r matches Err(e) ==> e.kind == storage_error_kind(column.storage_ty) && e.message@ == storage_fault(
            column.storage_ty,
            *value,
        ),
        column.storage_ty is Json ==> match *value {
            Value::Null => r matches Ok(SurValue::Absent),
            Value::String(t) => match json_syntax_error(t@) {
                Some(p) => r matches Err(e) && e.kind == ErrorKind::SerializationFailure
                    && e.message@ == invalid_json_message(p.0, p.1),
                None => r matches Ok(SurValue::Json(u)) && u@ == t@,
            },
            _ => r matches Err(e) && e.kind == ErrorKind::SerializationFailure && e.message@
                == "SurrealDB native JSON columns require serialized JSON text or a database null"@,
        },
        !(column.storage_ty is Json) ==> (r is Ok <==> encodable(*value)) && match r {
            Ok(s) => encodes(*value, s),
            Err(e) => e.kind == ErrorKind::UnsupportedFeature && e.message@ == encode_fault(*value),
        },
{
    to_surreal_for_storage(value, &column.storage_ty)
}

// ---------------------------------------------------------------------------
// Decoding
// ---------------------------------------------------------------------------

/// The UUID a text denotes under `uuid::Uuid::parse_str`, as a 128-bit integer.
pub uninterp spec fn uuid_text(text: Seq<char>) -> Option<u128>;

/// Parses UUID text.
///
/// Trusted: the result is the 128-bit value of the UUID that
/// `uuid::Uuid::parse_str` parses from the text, or `None` when it rejects the
/// text; it depends on the text alone.
#[verifier::external_body]
fn parse_uuid(text: &str) -> (r: Option<u128>)
    ensures
        r == uuid_text(text@),
{
    match uuid::Uuid::parse_str(text) {
        Ok(u) => Some(u.as_u128()),
        Err(_) => None,
    }
}

/// `10^e`.
pub open spec fn pow10(e: nat) -> nat
    decreases e,
{
    if e == 0 {
        1
    } else {
        10 * pow10((e - 1) as nat)
    }
}

/// A decimal that `rust_decimal` can represent.
pub open spec fn decimal_wf(d: Decimal) -> bool {
    d.magnitude < 0x1_0000_0000_0000_0000_0000_0000u128 && d.scale <= 28
}

/// The decimal truncated toward zero, as a `u64`, when it is non-negative and fits.
pub open spec fn spec_decimal_to_u64(d: Decimal) -> Option<u64> {
    if d.negative {
        None
    } else {
        let q = d.magnitude as nat / pow10(d.scale as nat);
        if q <= u64::MAX {
            Some(q as u64)
        } else {
            None
        }
    }
}

/// Narrows a decimal to a `u64`.
///
/// Trusted: `rust_decimal`'s `to_u64` returns `None` for a value whose sign is
/// negative, and otherwise the value truncated toward zero when it fits a
/// `u64` (`None` when it does not). The decimal is rebuilt from its parts with
/// `from_i128_with_scale` (which panics beyond 96 bits or scale 28, hence the
/// precondition) and `set_sign_negative`.
#[verifier::external_body]
fn decimal_to_u64(d: Decimal) -> (r: Option<u64>)
    requires
        decimal_wf(d),
    ensures
        r == spec_decimal_to_u64(d),
{
    let mut x = rust_decimal::Decimal::from_i128_with_scale(d.magnitude as i128, d.scale);
    x.set_sign_negative(d.negative);
    rust_decimal::prelude::ToPrimitive::to_u64(&x)
}

/// The decimal truncated toward zero, as an `i64`, when it fits (the
/// magnitude `2^63` fits only as a negative value).
pub open spec fn spec_decimal_to_i64(d: Decimal) -> Option<i64> {
    let q = d.magnitude as nat / pow10(d.scale as nat);
    if !d.negative {
        if q <= i64::MAX {
            Some(q as i64)
        } else {
            None
        }
    } else if q <= 0x8000_0000_0000_0000nat {
        Some((-(q as int)) as i64)
    } else {
        None
    }
}

/// The integer a decimal narrows to for an integer or boolean column: its
/// truncation when that fits an `i64`, zero otherwise.
pub open spec fn decimal_int(d: Decimal) -> i64 {
    match spec_decimal_to_i64(d) {
        Some(x) => x,
        None => 0,
    }
}

/// Narrows a decimal to an `i64`.
///
/// Trusted: `rust_decimal`'s `to_i64` truncates toward zero and returns the
/// result when it fits an `i64` (the magnitude `2^63` only when negative),
/// `None` otherwise. The decimal is rebuilt from its parts with
/// `from_i128_with_scale` (which panics beyond 96 bits or scale 28, hence the
/// precondition) and `set_sign_negative`.
#[verifier::external_body]
fn decimal_to_i64(d: Decimal) -> (r: Option<i64>)
    requires
        decimal_wf(d),
    ensures
        r == spec_decimal_to_i64(d),
{
    let mut x = rust_decimal::Decimal::from_i128_with_scale(d.magnitude as i128, d.scale);
    x.set_sign_negative(d.negative);
    rust_decimal::prelude::ToPrimitive::to_i64(&x)
}

/// An integer narrowed to an integer or boolean column type, as `as` does
/// (nonzero for a boolean).
pub open spec fn int_narrow(sc: Scalar, i: i64) -> Value {
    match sc {
        Scalar::Bool => Value::Bool(i != 0),
        Scalar::I8 => Value::I8(i as i8),
        Scalar::I16 => Value::I16(i as i16),
        Scalar::I32 => Value::I32(i as i32),
        Scalar::U8 => Value::U8(i as u8),
        Scalar::U16 => Value::U16(i as u16),
        Scalar::U32 => Value::U32(i as u32),
        Scalar::U64 => Value::U64(i as u64),
        _ => Value::I64(i),
    }
}

fn int_narrow_exec(sc: Scalar, i: i64) -> (v: Value)
    ensures
        v == int_narrow(sc, i),
{
    match sc {
        Scalar::Bool => Value::Bool(i != 0),
        Scalar::I8 => Value::I8(i as i8),
        Scalar::I16 => Value::I16(i as i16),
        Scalar::I32 => Value::I32(i as i32),
        Scalar::U8 => Value::U8(i as u8),
        Scalar::U16 => Value::U16(i as u16),
        Scalar::U32 => Value::U32(i as u32),
        Scalar::U64 => Value::U64(i as u64),
        _ => Value::I64(i),
    }
}

fn decimal_int_exec(d: Decimal) -> (r: i64)
    requires
        decimal_wf(d),
    ensures
        r == decimal_int(d),
{
    match decimal_to_i64(d) {
        Some(x) => x,
        None => 0,
    }
}

/// A number decodes for the target type: a boolean, integer, float, or
/// untyped projection.
pub open spec fn number_decodable(ty: Type) -> bool {
    match ty {
        Type::Scalar(sc) => match sc {
            Scalar::Bool | Scalar::I8 | Scalar::I16 | Scalar::I32 | Scalar::I64 | Scalar::U8
            | Scalar::U16 | Scalar::U32 | Scalar::U64 | Scalar::F32 | Scalar::F64
            | Scalar::Unknown => true,
            _ => false,
        },
        _ => false,
    }
}

/// `v` is the Toasty value a number decodes to for the target type. An
/// integer narrows to the target integer type (truncating, as `as` does) and
/// is nonzero for a boolean; a `u64` decimal (the form of values above
/// `i64::MAX`) is recovered exactly; a decimal for another integer type or a
/// boolean narrows through its `i64` truncation (zero when that does not
/// fit); an untyped integer is an `i64`. Floats, float targets, and untyped
/// decimals are narrowed by the engine.
pub open spec fn number_decodes(n: Number, ty: Type, v: Value) -> bool {
    match ty {
        Type::Scalar(sc) => match (sc, n) {
            (Scalar::Bool, Number::Decimal(d)) | (Scalar::I8, Number::Decimal(d)) | (Scalar::I16, Number::Decimal(d))
            | (Scalar::I32, Number::Decimal(d)) | (Scalar::I64, Number::Decimal(d)) | (Scalar::U8, Number::Decimal(d))
            | (Scalar::U16, Number::Decimal(d)) | (Scalar::U32, Number::Decimal(d)) => if decimal_wf(d) {
                v == int_narrow(sc, decimal_int(d))
            } else {
                v == Value::FromNumber(sc, n)
            },
            (Scalar::Bool, Number::Int(i)) => v == Value::Bool(i != 0),
            (Scalar::I8, Number::Int(i)) => v == Value::I8(i as i8),
            (Scalar::I16, Number::Int(i)) => v == Value::I16(i as i16),
            (Scalar::I32, Number::Int(i)) => v == Value::I32(i as i32),
            (Scalar::I64, Number::Int(i)) => v == Value::I64(i),
            (Scalar::U8, Number::Int(i)) => v == Value::U8(i as u8),
            (Scalar::U16, Number::Int(i)) => v == Value::U16(i as u16),
            (Scalar::U32, Number::Int(i)) => v == Value::U32(i as u32),
            (Scalar::U64, Number::Int(i)) => v == Value::U64(i as u64),
            (Scalar::U64, Number::Decimal(d)) => if decimal_wf(d) {
                v == Value::U64(
                    match spec_decimal_to_u64(d) {
                        Some(x) => x,
                        None => 0,
                    },
                )
            } else {
                v == Value::FromNumber(sc, n)
            },
            (Scalar::Unknown, Number::Int(i)) => v == Value::I64(i),
            _ => v == Value::FromNumber(sc, n),
        },
        _ => false,
    }
}

/// The element type of a list type (untyped for anything else).
pub open spec fn elem_type(ty: Type) -> Type {
    match ty {
        Type::List(inner) => *inner,
        _ => Type::Scalar(Scalar::Unknown),
    }
}

/// The native value decodes without error for the target type.
pub open spec fn decodable(s: SurValue, ty: Type) -> bool
    decreases s, 1nat,
{
    match s {
        SurValue::Number(_) => number_decodable(ty),
        SurValue::String(t) => ty == Type::Scalar(Scalar::Uuid) ==> uuid_text(t@) is Some,
        SurValue::RecordId(rid) => key_decodable(rid.key, ty),
        SurValue::Array(xs) => decodable_seq(xs@, elem_type(ty)),
        SurValue::Object(fs) => decodable_fields(fs@),
        SurValue::Json(_) | SurValue::Other(_) => false,
        _ => true,
    }
}

/// A record id key decodes without error for the target type.
pub open spec fn key_decodable(k: RecordKey, ty: Type) -> bool
    decreases k, 1nat,
{
    match k {
        RecordKey::Number(_) => number_decodable(ty),
        RecordKey::String(t) => ty == Type::Scalar(Scalar::Uuid) ==> uuid_text(t@) is Some,
        RecordKey::Uuid(_) => true,
        RecordKey::Array(xs) => decodable_seq(xs@, Type::Scalar(Scalar::Unknown)),
        RecordKey::Other(_) => false,
    }
}

/// Every element decodes for the element type.
pub open spec fn decodable_seq(xs: Seq<SurValue>, ty: Type) -> bool
    decreases xs, 0nat,
{
    xs.len() == 0 || (decodable_seq(xs.drop_last(), ty) && decodable(xs.last(), ty))
}

/// Every object entry decodes, untyped.
pub open spec fn decodable_fields(fs: Seq<(String, SurValue)>) -> bool
    decreases fs, 0nat,
{
    fs.len() == 0 || (decodable_fields(fs.drop_last()) && decodable(
        fs.last().1,
        Type::Scalar(Scalar::Unknown),
    ))
}

/// `v` is the Toasty value a native value decodes to for the target type.
/// `NONE` and `NULL` both decode to null; text decodes to a string for string
/// and untyped targets, to a UUID for UUID targets, and is cast for temporal,
/// decimal and network targets; arrays decode element-wise to lists; objects
/// decode to untyped objects; a record id decodes through its key.
pub open spec fn decodes(s: SurValue, ty: Type, v: Value) -> bool
    decreases s, 1nat,
{
    match s {
        SurValue::Absent | SurValue::Null => v is Null,
        SurValue::Bool(b) => v == Value::Bool(b),
        SurValue::Number(n) => number_decodes(n, ty, v),
        SurValue::String(t) => text_decodes(t@, ty, v),
        SurValue::Uuid(u) => v == Value::Uuid(u),
        SurValue::Bytes(b) => v matches Value::Bytes(c) && c@ == b@,
        SurValue::RecordId(rid) => key_decodes(rid.key, ty, v),
        SurValue::Array(xs) => v matches Value::List(out) && decodes_seq(xs@, elem_type(ty), out@),
        SurValue::Object(fs) => v matches Value::Object(out) && decodes_fields(fs@, out@),
        _ => false,
    }
}

/// `v` is what text decodes to for the target type.
pub open spec fn text_decodes(t: Seq<char>, ty: Type, v: Value) -> bool {
    if ty == Type::Scalar(Scalar::String) || ty == Type::Scalar(Scalar::Unknown) {
        v matches Value::String(u) && u@ == t
    } else if ty == Type::Scalar(Scalar::Uuid) {
        uuid_text(t) matches Some(x) && v == Value::Uuid(x)
    } else {
        v matches Value::FromText(target, u) && target == ty && u@ == t
    }
}

/// `v` is what a record id key decodes to: a number as a number, text as a
/// UUID for UUID targets and as a string otherwise, a UUID as a UUID, and an
/// array (a composite key) as a record of untyped elements.
pub open spec fn key_decodes(k: RecordKey, ty: Type, v: Value) -> bool
    decreases k, 1nat,
{
    match k {
        RecordKey::Number(i) => number_decodes(Number::Int(i), ty, v),
        RecordKey::String(t) => if ty == Type::Scalar(Scalar::Uuid) {
            uuid_text(t@) matches Some(x) && v == Value::Uuid(x)
        } else {
            v matches Value::String(u) && u@ == t@
        },
        RecordKey::Uuid(u) => v == Value::Uuid(u),
        RecordKey::Array(xs) => v matches Value::Record(out) && decodes_seq(
            xs@,
            Type::Scalar(Scalar::Unknown),
            out@,
        ),
        RecordKey::Other(_) => false,
    }
}

/// Element-wise decoding.
pub open spec fn decodes_seq(xs: Seq<SurValue>, ty: Type, vs: Seq<Value>) -> bool
    decreases xs, 0nat,
{
    xs.len() == vs.len() && (xs.len() == 0 || (decodes_seq(xs.drop_last(), ty, vs.drop_last())
        && decodes(xs.last(), ty, vs.last())))
}

/// Entry-wise untyped decoding, names kept.
pub open spec fn decodes_fields(fs: Seq<(String, SurValue)>, vs: Seq<(String, Value)>) -> bool
    decreases fs, 0nat,
{
    fs.len() == vs.len() && (fs.len() == 0 || (decodes_fields(fs.drop_last(), vs.drop_last())
        && vs.last().0@ == fs.last().0@ && decodes(
        fs.last().1,
        Type::Scalar(Scalar::Unknown),
        vs.last().1,
    )))
}

/// The error for a number decoded into a non-numeric column type.
fn number_for_non_numeric() -> (e: DriverError)
    ensures
        e.kind == ErrorKind::UnsupportedFeature,
{
    DriverError::new(
        ErrorKind::UnsupportedFeature,
        "SurrealDB returned a number for a non-numeric column type",
    )
}

/// Narrows a SurrealDB number to the target integer, boolean or float type.
pub fn number_to_stmt(n: Number, ty: &Type) -> (r: Result<Value, DriverError>)
    ensures
        r is Ok <==> number_decodable(*ty),
        match r {
            Ok(v) => number_decodes(n, *ty, v),
            Err(e) => e.kind == ErrorKind::UnsupportedFeature,
        },
{
    let sc = match ty {
        Type::Scalar(sc) => *sc,
        _ => {
            return Err(number_for_non_numeric());
        },
    };
    match (sc, n) {
        (Scalar::Bool, Number::Int(i)) => Ok(Value::Bool(i != 0)),
        (Scalar::I8, Number::Int(i)) => Ok(Value::I8(i as i8)),
        (Scalar::I16, Number::Int(i)) => Ok(Value::I16(i as i16)),
        (Scalar::I32, Number::Int(i)) => Ok(Value::I32(i as i32)),
        (Scalar::I64, Number::Int(i)) => Ok(Value::I64(i)),
        (Scalar::U8, Number::Int(i)) => Ok(Value::U8(i as u8)),
        (Scalar::U16, Number::Int(i)) => Ok(Value::U16(i as u16)),
        (Scalar::U32, Number::Int(i)) => Ok(Value::U32(i as u32)),
        (Scalar::U64, Number::Int(i)) => Ok(Value::U64(i as u64)),
        (Scalar::U64, Number::Decimal(d)) if d.magnitude < 0x1_0000_0000_0000_0000_0000_0000u128
            && d.scale <= 28 => Ok(
            Value::U64(
                match decimal_to_u64(d) {
                    Some(x) => x,
                    None => 0,
                },
            ),
        ),
        (Scalar::Unknown, Number::Int(i)) => Ok(Value::I64(i)),
        (Scalar::Bool, Number::Decimal(d)) | (Scalar::I8, Number::Decimal(d)) | (Scalar::I16, Number::Decimal(d))
        | (Scalar::I32, Number::Decimal(d)) | (Scalar::I64, Number::Decimal(d)) | (Scalar::U8, Number::Decimal(d))
        | (Scalar::U16, Number::Decimal(d)) | (Scalar::U32, Number::Decimal(d)) => {
            if d.magnitude < 0x1_0000_0000_0000_0000_0000_0000u128 && d.scale <= 28 {
                Ok(int_narrow_exec(sc, decimal_int_exec(d)))
            } else {
                Ok(Value::FromNumber(sc, n))
            }
        },
        (Scalar::Bool, _) | (Scalar::I8, _) | (Scalar::I16, _) | (Scalar::I32, _) | (Scalar::I64, _)
        | (Scalar::U8, _) | (Scalar::U16, _) | (Scalar::U32, _) | (Scalar::U64, _) | (Scalar::F32, _)
        | (Scalar::F64, _) | (Scalar::Unknown, _) => Ok(Value::FromNumber(sc, n)),
        _ => Err(number_for_non_numeric()),
    }
}

/// Decodes text for the target type.
fn text_to_stmt(t: &String, ty: &Type) -> (r: Result<Value, DriverError>)
    ensures
        r is Ok <==> (*ty == Type::Scalar(Scalar::Uuid) ==> uuid_text(t@) is Some),
        match r {
            Ok(v) => text_decodes(t@, *ty, v),
            Err(e) => e.kind == ErrorKind::UnsupportedFeature,
        },
{
    match ty {
        Type::Scalar(Scalar::String) | Type::Scalar(Scalar::Unknown) => Ok(Value::String(t.clone())),
        Type::Scalar(Scalar::Uuid) => match parse_uuid(t.as_str()) {
            Some(u) => Ok(Value::Uuid(u)),
            None => Err(
                DriverError::new(ErrorKind::UnsupportedFeature, "expected UUID text from SurrealDB"),
            ),
        },
        _ => Ok(Value::FromText(ty.duplicate(), t.clone())),
    }
}

/// Decodes the elements of an array (or composite key) for the element type.
fn decode_items(xs: &Vec<SurValue>, ty: &Type, Ghost(whole): Ghost<SurValue>, Ghost(key): Ghost<Option<RecordKey>>) -> (r: Result<Vec<Value>, DriverError>)
    requires
        match key {
            None => whole matches SurValue::Array(v) && v@ == xs@,
            Some(k) => (whole matches SurValue::RecordId(rid) && rid.key == k) && (k matches RecordKey::Array(v) && v@ == xs@),
        },
    ensures
        r is Ok <==> decodable_seq(xs@, *ty),
        match r {
            Ok(vs) => decodes_seq(xs@, *ty, vs@),
            Err(e) => e.kind == ErrorKind::UnsupportedFeature,
        },
    decreases whole, 0nat,
{
    proof {
        assert forall|k: int| 0 <= k < xs@.len() implies decreases_to!(whole => xs@[k]) by {
            match key {
                None => {
                    let v = whole->Array_0;
                    assert(decreases_to!(whole => v));
                    assert(decreases_to!(v => v@));
                    assert(decreases_to!(v@ => v@[k]));
                },
                Some(kk) => {
                    let rid = whole->RecordId_0;
                    let v = kk->Array_0;
                    assert(decreases_to!(whole => rid));
                    assert(decreases_to!(rid => rid.key));
                    assert(decreases_to!(kk => v));
                    assert(decreases_to!(v => v@));
                    assert(decreases_to!(v@ => v@[k]));
                },
            }
        }
    }
    let mut out: Vec<Value> = Vec::new();
    let n = xs.len();
    let mut i: usize = 0;
    while i < n
        invariant
            n == xs@.len(),
            i <= n,
            forall|k: int| 0 <= k < xs@.len() ==> decreases_to!(whole => xs@[k]),
            decodable_seq(xs@.take(i as int), *ty),
            decodes_seq(xs@.take(i as int), *ty, out@),
        decreases n - i,
    {
        proof {
            assert(xs@.take(i + 1).drop_last() =~= xs@.take(i as int));
        }
        let v = match from_surreal(&xs[i], ty) {
            Ok(v) => v,
            Err(e) => {
                proof {
                    assert(xs@.take(i + 1).last() == xs@[i as int]);
                    assert(!decodable_seq(xs@.take(i + 1), *ty));
                    lemma_decodable_seq_prefix(xs@, *ty, i as int + 1, n as int);
                    assert(xs@.take(n as int) =~= xs@);
                }
                return Err(e);
            },
        };
        let ghost before = out@;
        out.push(v);
        assert(out@.drop_last() =~= before);
        i = i + 1;
    }
    assert(xs@.take(n as int) =~= xs@);
    Ok(out)
}

proof fn lemma_decodable_seq_prefix(xs: Seq<SurValue>, ty: Type, i: int, n: int)
    requires
        0 < i <= n <= xs.len(),
        !decodable_seq(xs.take(i), ty),
    ensures
        !decodable_seq(xs.take(n), ty),
    decreases n - i,
{
    if i < n {
        assert(xs.take(i + 1).drop_last() =~= xs.take(i));
        lemma_decodable_seq_prefix(xs, ty, i + 1, n);
    }
}

proof fn lemma_decodable_fields_prefix(fs: Seq<(String, SurValue)>, i: int, n: int)
    requires
        0 < i <= n <= fs.len(),
        !decodable_fields(fs.take(i)),
    ensures
        !decodable_fields(fs.take(n)),
    decreases n - i,
{
    if i < n {
        assert(fs.take(i + 1).drop_last() =~= fs.take(i));
        lemma_decodable_fields_prefix(fs, i + 1, n);
    }
}

/// Decodes the entries of an object, untyped.
fn decode_fields(fs: &Vec<(String, SurValue)>, Ghost(whole): Ghost<SurValue>) -> (r: Result<Vec<(String, Value)>, DriverError>)
    requires
        whole matches SurValue::Object(v) && v@ == fs@,
    ensures
        r is Ok <==> decodable_fields(fs@),
        match r {
            Ok(vs) => decodes_fields(fs@, vs@),
            Err(e) => e.kind == ErrorKind::UnsupportedFeature,
        },
    decreases whole, 0nat,
{
    proof {
        assert forall|k: int| 0 <= k < fs@.len() implies decreases_to!(whole => fs@[k].1) by {
            let v = whole->Object_0;
            assert(decreases_to!(whole => v));
            assert(decreases_to!(v => v@));
            assert(decreases_to!(v@ => v@[k]));
            assert(decreases_to!(v@[k] => v@[k].1));
        }
    }
    let unknown = Type::Scalar(Scalar::Unknown);
    let mut out: Vec<(String, Value)> = Vec::new();
    let n = fs.len();
    let mut i: usize = 0;
    while i < n
        invariant
            n == fs@.len(),
            i <= n,
            unknown == Type::Scalar(Scalar::Unknown),
            forall|k: int| 0 <= k < fs@.len() ==> decreases_to!(whole => fs@[k].1),
            decodable_fields(fs@.take(i as int)),
            decodes_fields(fs@.take(i as int), out@),
        decreases n - i,
    {
        proof {
            assert(fs@.take(i + 1).drop_last() =~= fs@.take(i as int));
        }
        let (name, val) = &fs[i];
        let v = match from_surreal(val, &unknown) {
            Ok(v) => v,
            Err(e) => {
                proof {
                    assert(fs@.take(i + 1).last() == fs@[i as int]);
                    assert(!decodable_fields(fs@.take(i + 1)));
                    lemma_decodable_fields_prefix(fs@, i as int + 1, n as int);
                    assert(fs@.take(n as int) =~= fs@);
                }
                return Err(e);
            },
        };
        let ghost before = out@;
        out.push((name.clone(), v));
        assert(out@.drop_last() =~= before);
        i = i + 1;
    }
    assert(fs@.take(n as int) =~= fs@);
    Ok(out)
}

/// Decodes a record id key into a Toasty scalar (or a record for a composite
/// key), directed by the primary-key column type.
fn record_key_to_stmt(key: &RecordKey, ty: &Type, Ghost(whole): Ghost<SurValue>) -> (r: Result<Value, DriverError>)
    requires
        whole matches SurValue::RecordId(rid) && rid.key == *key,
    ensures
        r is Ok <==> key_decodable(*key, *ty),
        match r {
            Ok(v) => key_decodes(*key, *ty, v),
            Err(e) => e.kind == ErrorKind::UnsupportedFeature,
        },
    decreases whole, 1nat,
{
    match key {
        RecordKey::Number(i) => number_to_stmt(Number::Int(*i), ty),
        RecordKey::String(t) => match ty {
            Type::Scalar(Scalar::Uuid) => match parse_uuid(t.as_str()) {
                Some(u) => Ok(Value::Uuid(u)),
                None => Err(
                    DriverError::new(ErrorKind::UnsupportedFeature, "expected UUID record id key"),
                ),
            },
            _ => Ok(Value::String(t.clone())),
        },
        RecordKey::Uuid(u) => Ok(Value::Uuid(*u)),
        RecordKey::Array(xs) => {
            let unknown = Type::Scalar(Scalar::Unknown);
            match decode_items(xs, &unknown, Ghost(whole), Ghost(Some(*key))) {
                Ok(vs) => Ok(Value::Record(vs)),
                Err(e) => Err(e),
            }
        },
        RecordKey::Other(_) => Err(
            DriverError::new(ErrorKind::UnsupportedFeature, "SurrealDB driver cannot decode record id key"),
        ),
    }
}

/// Decodes a native SurrealDB value into a Toasty value, directed by the
/// expected column type.
#[verifier::spinoff_prover]
pub fn from_surreal(value: &SurValue, ty: &Type) -> (r: Result<Value, DriverError>)
    ensures
        r is Ok <==> decodable(*value, *ty),
        match r {
            Ok(v) => decodes(*value, *ty, v),
            Err(e) => e.kind == ErrorKind::UnsupportedFeature,
        },
    decreases value, 2nat,
{
    match value {
        SurValue::Absent | SurValue::Null => Ok(Value::Null),
        SurValue::Bool(b) => Ok(Value::Bool(*b)),
        SurValue::Number(n) => number_to_stmt(*n, ty),
        SurValue::String(t) => text_to_stmt(t, ty),
        SurValue::Uuid(u) => Ok(Value::Uuid(*u)),
        SurValue::Bytes(b) => Ok(Value::Bytes(copy_bytes(b))),
        SurValue::RecordId(rid) => record_key_to_stmt(&rid.key, ty, Ghost(*value)),
        SurValue::Array(xs) => {
            let unknown = Type::Scalar(Scalar::Unknown);
            let elem: &Type = match ty {
                Type::List(inner) => &**inner,
                _ => &unknown,
            };
            match decode_items(xs, elem, Ghost(*value), Ghost(None)) {
                Ok(vs) => Ok(Value::List(vs)),
                Err(e) => Err(e),
            }
        },
        SurValue::Object(fs) => match decode_fields(fs, Ghost(*value)) {
            Ok(vs) => Ok(Value::Object(vs)),
            Err(e) => Err(e),
        },
        _ => Err(
            DriverError::new(ErrorKind::UnsupportedFeature, "SurrealDB driver cannot decode value"),
        ),
    }
}

// ---------------------------------------------------------------------------
// Native JSON columns
// ---------------------------------------------------------------------------

/// Decodes a value read from the given column.
///
/// For a native JSON column only `NONE` is the database null; any other value
/// (`NULL` included, which reads back as the JSON value `null`) must be
/// JSON-compatible and decodes to the JSON value it holds.
pub fn from_surreal_for_column(value: &SurValue, column: &Column) -> (r: Result<Value, DriverError>)
    ensures
        column.storage_ty is Json ==> if *value is Absent {
            r matches Ok(Value::Null)
        } else {
            match json_issue(*value) {
                None => r matches Ok(Value::JsonText(j)) && json_decodes(*value, j),
                Some(issue) => r matches Err(e) && e.kind == ErrorKind::SerializationFailure && e.message@
                    == json_issue_message(issue),
            }
        },
        !(column.storage_ty is Json) ==> (r is Ok <==> decodable(*value, column.ty)) && match r {
            Ok(v) => decodes(*value, column.ty, v),
            Err(e) => e.kind == ErrorKind::UnsupportedFeature,
        },
{
    if column.storage_ty.is_json() {
        if let SurValue::Absent = value {
            return Ok(Value::Null);
        }
        match surreal_to_json(value) {
            Ok(j) => Ok(Value::JsonText(j)),
            Err(e) => Err(e),
        }
    } else {
        from_surreal(value, &column.ty)
    }
}

} // verus!
