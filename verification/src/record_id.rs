//! Mapping between Toasty primary keys and SurrealDB record ids.
//!
//! Toasty identifies rows by primary-key columns; SurrealDB identifies rows by
//! a `table:key` record id. A single-column key maps to a scalar record key;
//! a composite key maps to an array key ordered as the primary-key columns.

use vstd::prelude::*;
use crate::error::{DriverError, ErrorKind};
use crate::schema::Table;
use crate::value::{RecordId, RecordKey, SurValue, Value, encodable, encodable_seq, encode_fault_seq, encodes_seq, to_surreal};

verus! {

/// The value can be a scalar record key: an integer that fits `i64`, a
/// string, or a UUID.
pub open spec fn scalar_keyable(v: Value) -> bool {
    match v {
        Value::I8(_) | Value::I16(_) | Value::I32(_) | Value::I64(_) | Value::U8(_) | Value::U16(_)
        | Value::U32(_) | Value::String(_) | Value::Uuid(_) => true,
        Value::U64(x) => x <= i64::MAX,
        _ => false,
    }
}

/// `k` is the scalar record key of `v`.
pub open spec fn scalar_key_is(v: Value, k: RecordKey) -> bool {
    match v {
        Value::I8(x) => k == RecordKey::Number(x as i64),
        Value::I16(x) => k == RecordKey::Number(x as i64),
        Value::I32(x) => k == RecordKey::Number(x as i64),
        Value::I64(x) => k == RecordKey::Number(x),
        Value::U8(x) => k == RecordKey::Number(x as i64),
        Value::U16(x) => k == RecordKey::Number(x as i64),
        Value::U32(x) => k == RecordKey::Number(x as i64),
        Value::U64(x) => x <= i64::MAX && k == RecordKey::Number(x as i64),
        Value::String(t) => k matches RecordKey::String(u) && u@ == t@,
        Value::Uuid(u) => k == RecordKey::Uuid(u),
        _ => false,
    }
}

/// Why a key value cannot become a record key for a table whose primary key
/// has `arity` columns, if it cannot. The shape follows the arity, not the
/// value: a single-column key may arrive wrapped in a one-field record.
pub open spec fn key_error(key: Value, arity: nat) -> Option<ErrorKind> {
    match key {
        Value::Record(fs) => if arity <= 1 {
            if fs@.len() == 0 {
                Some(ErrorKind::InvalidStatement)
            } else if scalar_keyable(fs@[0]) {
                None
            } else {
                Some(ErrorKind::UnsupportedFeature)
            }
        } else if encodable_seq(fs@) {
            None
        } else {
            Some(ErrorKind::UnsupportedFeature)
        },
        _ => if scalar_keyable(key) {
            None
        } else {
            Some(ErrorKind::UnsupportedFeature)
        },
    }
}

/// `k` is the record key for a key value: a scalar for a single-column key
/// (the first field of a record), an array of the encoded fields otherwise.
pub open spec fn builds_key(key: Value, arity: nat, k: RecordKey) -> bool {
    match key {
        Value::Record(fs) => if arity <= 1 {
            fs@.len() > 0 && scalar_key_is(fs@[0], k)
        } else {
            k matches RecordKey::Array(ys) && encodes_seq(fs@, ys@)
        },
        _ => scalar_key_is(key, k),
    }
}

/// The message of a value that cannot be a scalar record key; an opaque
/// value's description is appended.
pub open spec fn scalar_key_fault(v: Value) -> Seq<char> {
    match v {
        Value::U64(_) => "SurrealDB record id integers are i64; u64 keys above i64::MAX are not supported"@,
        Value::Opaque(d) => "SurrealDB record id key cannot be built from value"@ + ": "@ + d@,
        _ => "SurrealDB record id key cannot be built from value"@,
    }
}

/// The message of a key value that cannot become a record key.
pub open spec fn key_fault(key: Value, arity: nat) -> Seq<char> {
    match key {
        Value::Record(fs) => if arity <= 1 {
            if fs@.len() == 0 {
                "empty record key for single-column table"@
            } else {
                scalar_key_fault(fs@[0])
            }
        } else {
            encode_fault_seq(fs@)
        },
        _ => scalar_key_fault(key),
    }
}

/// The message of key parts that cannot become a record key.
pub open spec fn parts_fault(parts: Seq<Value>, arity: nat) -> Seq<char> {
    if parts.len() == 1 {
        key_fault(parts[0], arity)
    } else if arity <= 1 {
        if parts.len() == 0 {
            "empty record key for single-column table"@
        } else {
            scalar_key_fault(parts[0])
        }
    } else {
        encode_fault_seq(parts)
    }
}

/// Converts one scalar Toasty value into a scalar record key.
fn scalar_to_key(value: &Value) -> (r: Result<RecordKey, DriverError>)
    ensures
        r is Ok <==> scalar_keyable(*value),
        match r {
            Ok(k) => scalar_key_is(*value, k),
            Err(e) => e.kind == ErrorKind::UnsupportedFeature && e.message@ == scalar_key_fault(*value),
        },
{
    match value {
        Value::I8(v) => Ok(RecordKey::Number(*v as i64)),
        Value::I16(v) => Ok(RecordKey::Number(*v as i64)),
        Value::I32(v) => Ok(RecordKey::Number(*v as i64)),
        Value::I64(v) => Ok(RecordKey::Number(*v)),
        Value::U8(v) => Ok(RecordKey::Number(*v as i64)),
        Value::U16(v) => Ok(RecordKey::Number(*v as i64)),
        Value::U32(v) => Ok(RecordKey::Number(*v as i64)),
        Value::U64(v) => {
            if *v <= 0x7fff_ffff_ffff_ffffu64 {
                Ok(RecordKey::Number(*v as i64))
            } else {
                Err(
                    DriverError::new(
                        ErrorKind::UnsupportedFeature,
                        "SurrealDB record id integers are i64; u64 keys above i64::MAX are not supported",
                    ),
                )
            }
        },
        Value::String(v) => Ok(RecordKey::String(v.clone())),
        Value::Uuid(v) => Ok(RecordKey::Uuid(*v)),
        _ => {
            let mut message = String::new();
            message.append("SurrealDB record id key cannot be built from value");
            match value {
                Value::Opaque(d) => {
                    message.append(": ");
                    message.append(d.as_str());
                },
                _ => {},
            }
            assert(message@ =~= scalar_key_fault(*value));
            Err(DriverError { kind: ErrorKind::UnsupportedFeature, message })
        },
    }
}

/// Converts a Toasty key value into a record key, using the primary-key
/// `arity` to choose between a scalar and an array key.
pub fn record_id_key(key: &Value, arity: usize) -> (r: Result<RecordKey, DriverError>)
    ensures
        r is Ok <==> key_error(*key, arity as nat) is None,
        match r {
            Ok(k) => builds_key(*key, arity as nat, k),
            Err(e) => key_error(*key, arity as nat) == Some(e.kind) && e.message@ == key_fault(*key, arity as nat),
        },
{
    match key {
        Value::Record(fields) => {
            if arity <= 1 {
                if fields.len() == 0 {
                    return Err(
                        DriverError::new(
                            ErrorKind::InvalidStatement,
                            "empty record key for single-column table",
                        ),
                    );
                }
                scalar_to_key(&fields[0])
            } else {
                let mut elems: Vec<SurValue> = Vec::new();
                let n = fields.len();
                let mut i: usize = 0;
                while i < n
                    invariant
                        n == fields@.len(),
                        i <= n,
                        arity > 1,
                        *key == Value::Record(*fields),
                        encodable_seq(fields@.take(i as int)),
                        encodes_seq(fields@.take(i as int), elems@),
                    decreases n - i,
                {
                    assert(fields@.take(i + 1).drop_last() =~= fields@.take(i as int));
                    let y = match to_surreal(&fields[i]) {
                        Ok(y) => y,
                        Err(e) => {
                            proof {
                                assert(fields@.take(i + 1).last() == fields@[i as int]);
                                assert(!encodable_seq(fields@.take(i + 1)));
                                lemma_not_encodable_extends(fields@, i as int + 1, n as int);
                                assert(fields@.take(n as int) =~= fields@);
                            }
                            return Err(e);
                        },
                    };
                    let ghost before = elems@;
                    elems.push(y);
                    assert(elems@.drop_last() =~= before);
                    i = i + 1;
                }
                assert(fields@.take(n as int) =~= fields@);
                Ok(RecordKey::Array(elems))
            }
        },
        other => scalar_to_key(other),
    }
}

proof fn lemma_not_encodable_extends(xs: Seq<Value>, i: int, n: int)
    requires
        0 < i <= n <= xs.len(),
        !encodable_seq(xs.take(i)),
    ensures
        !encodable_seq(xs.take(n)),
        encode_fault_seq(xs.take(n)) == encode_fault_seq(xs.take(i)),
    decreases n - i,
{
    if i < n {
        assert(xs.take(i + 1).drop_last() =~= xs.take(i));
        lemma_not_encodable_extends(xs, i + 1, n);
    }
}

/// Builds the record id of a row of `table` from its Toasty key value.
///
/// The engine represents keys inconsistently across operations (an inserted
/// row yields a bare scalar for a single-column key, a lookup wraps it in a
/// record), so the record id's shape is driven by the primary-key arity.
pub fn record_id(table: &Table, key: &Value) -> (r: Result<RecordId, DriverError>)
    ensures
        r is Ok <==> key_error(*key, table.primary_key@.len()) is None,
        match r {
            Ok(rid) => rid.table@ == table.name@ && builds_key(*key, table.primary_key@.len(), rid.key),
            Err(e) => key_error(*key, table.primary_key@.len()) == Some(e.kind) && e.message@ == key_fault(
                *key,
                table.primary_key@.len(),
            ),
        },
{
    let arity = table.primary_key.len();
    let key = record_id_key(key, arity)?;
    Ok(RecordId { table: table.name.clone(), key })
}

/// The values behind a sequence of references.
pub open spec fn derefs(s: Seq<&Value>) -> Seq<Value> {
    s.map_values(|v: &Value| *v)
}

/// Why the key parts of a row (its primary-key values in key order) cannot
/// become a record key, if they cannot: one part is the key itself, several
/// parts form a composite key.
pub open spec fn parts_error(parts: Seq<Value>, arity: nat) -> Option<ErrorKind> {
    if parts.len() == 1 {
        key_error(parts[0], arity)
    } else if arity <= 1 {
        if parts.len() == 0 {
            Some(ErrorKind::InvalidStatement)
        } else if scalar_keyable(parts[0]) {
            None
        } else {
            Some(ErrorKind::UnsupportedFeature)
        }
    } else if encodable_seq(parts) {
        None
    } else {
        Some(ErrorKind::UnsupportedFeature)
    }
}

/// `k` is the record key built from the key parts of a row.
pub open spec fn builds_key_from_parts(parts: Seq<Value>, arity: nat, k: RecordKey) -> bool {
    if parts.len() == 1 {
        builds_key(parts[0], arity, k)
    } else if arity <= 1 {
        parts.len() > 0 && scalar_key_is(parts[0], k)
    } else {
        k matches RecordKey::Array(ys) && encodes_seq(parts, ys@)
    }
}

/// Builds the record id of a row from its primary-key values in key order
/// (a single value is the key itself; several form a composite key).
pub fn record_id_from_parts(table: &Table, parts: &Vec<&Value>) -> (r: Result<RecordId, DriverError>)
    ensures
        r is Ok <==> parts_error(derefs(parts@), table.primary_key@.len()) is None,
        match r {
            Ok(rid) => rid.table@ == table.name@ && builds_key_from_parts(derefs(parts@), table.primary_key@.len(), rid.key),
            Err(e) => parts_error(derefs(parts@), table.primary_key@.len()) == Some(e.kind) && e.message@
                == parts_fault(derefs(parts@), table.primary_key@.len()),
        },
{
    let arity = table.primary_key.len();
    if parts.len() == 1 {
        return record_id(table, parts[0]);
    }
    if arity <= 1 {
        if parts.len() == 0 {
            return Err(
                DriverError::new(ErrorKind::InvalidStatement, "empty record key for single-column table"),
            );
        }
        let key = scalar_to_key(parts[0])?;
        return Ok(RecordId { table: table.name.clone(), key });
    }
    let mut elems: Vec<SurValue> = Vec::new();
    let n = parts.len();
    let mut i: usize = 0;
    while i < n
        invariant
            n == parts@.len(),
            n != 1,
            i <= n,
            arity > 1,
            arity == table.primary_key@.len(),
            encodable_seq(derefs(parts@).take(i as int)),
            encodes_seq(derefs(parts@).take(i as int), elems@),
        decreases n - i,
    {
        assert(derefs(parts@).take(i + 1).drop_last() =~= derefs(parts@).take(i as int));
        let y = match to_surreal(parts[i]) {
            Ok(y) => y,
            Err(e) => {
                proof {
                    assert(derefs(parts@).take(i + 1).last() == *parts@[i as int]);
                    assert(!encodable_seq(derefs(parts@).take(i + 1)));
                    lemma_not_encodable_extends(derefs(parts@), i as int + 1, n as int);
                    assert(derefs(parts@).take(n as int) =~= derefs(parts@));
                }
                return Err(e);
            },
        };
        let ghost before = elems@;
        elems.push(y);
        assert(elems@.drop_last() =~= before);
        i = i + 1;
    }
    assert(derefs(parts@).take(n as int) =~= derefs(parts@));
    Ok(RecordId { table: table.name.clone(), key: RecordKey::Array(elems) })
}

} // verus!
