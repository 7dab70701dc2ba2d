//! The write operations: `UpdateByKey`, `Insert` and `Upsert`, each as a
//! query builder and a response decoder.
//!
//! Column writes encode their values for the column's storage type, so that
//! native JSON columns (serialized JSON text on the Toasty side) are stored as
//! the JSON values they denote.

use vstd::prelude::*;
use crate::error::{DriverError, ErrorKind};
use crate::expr::{Binds, Expr, binds_extend, pk_position, placeholder, refs_valid};
use crate::op::{ExecResponse, Query, cols_valid, record_decodes, row_decodable, rows_to_records, where_clause};
use crate::operation::{guard_bound, guard_fault, guard_message, guard_predicates, key_count_error, key_count_message, render_guards};
use crate::record_id::{builds_key, builds_key_from_parts, derefs, key_error, key_fault, parts_error, parts_fault, record_id, record_id_from_parts};
use crate::schema::{ColumnId, Table};
use crate::text::{contains, escape_ident, push_decimal, push_joined, spec_contains, spec_decimal, spec_escape_ident, spec_join, views};
use crate::value::{RecordId, SurValue, Value, encodable, encode_fault, encode_fault_seq, encodes, storage_encodes, storage_error_kind, storage_fault, storage_ok, to_surreal, to_surreal_for_column};

verus! {

/// An update assignment to one column.
#[derive(Debug)]
pub enum Assignment {
    /// Replace the value (a `Set`).
    Replace(Expr),
    /// Add to the current numeric value.
    Add(Expr),
    /// Subtract from the current numeric value.
    Subtract(Expr),
    /// Append a list (or one item) to the current list.
    Append(Expr),
    /// An assignment kind the driver does not translate, by its description.
    Other(String),
}

/// The message of an assignment the driver does not translate.
pub open spec fn unsupported_assignment_message(desc: Seq<char>) -> Seq<char> {
    "SurrealDB driver does not support update assignment: "@ + desc
}

/// How an assignment the driver does not translate is described in its
/// error: an unknown kind by its own description, an assignment of a
/// non-literal expression by its kind.
pub open spec fn assignment_description(a: Assignment) -> Seq<char> {
    match a {
        Assignment::Other(d) => d@,
        Assignment::Replace(_) => "Replace of a non-literal expression"@,
        Assignment::Add(_) => "Add of a non-literal expression"@,
        Assignment::Subtract(_) => "Subtract of a non-literal expression"@,
        Assignment::Append(_) => "Append of a non-literal expression"@,
    }
}

/// The literal an `Add`, `Subtract` or `Append` assignment carries, if it
/// carries one.
pub open spec fn operand_literal(a: Assignment) -> Option<Value> {
    match a {
        Assignment::Add(Expr::Value(v)) => Some(v),
        Assignment::Subtract(Expr::Value(v)) => Some(v),
        Assignment::Append(Expr::Value(v)) => Some(v),
        _ => None,
    }
}

/// `s` is the list an append adds: the value itself when it is a list, a
/// one-item list of it otherwise.
pub open spec fn append_encodes(v: Value, s: SurValue) -> bool {
    match v {
        Value::List(_) => encodes(v, s),
        _ => s matches SurValue::Array(ys) && ys@.len() == 1 && encodes(v, ys@[0]),
    }
}

/// The number of parameters an assignment binds: none for a replacement by null
/// (written `NONE`) and for an assignment the driver refuses, one otherwise.
pub open spec fn param_count(a: Assignment) -> nat {
    match a {
        Assignment::Replace(Expr::Value(v)) => if v is Null {
            0
        } else {
            1
        },
        _ => if operand_literal(a) is Some {
            1
        } else {
            0
        },
    }
}

/// Why an assignment to column `c` cannot be translated, if it cannot: a
/// non-literal or unknown assignment, or a literal that does not encode.
pub open spec fn assignment_error(t: Table, c: ColumnId, a: Assignment) -> Option<ErrorKind> {
    match a {
        Assignment::Replace(Expr::Value(v)) => if v is Null || storage_ok(t.col(c).storage_ty, v) {
            None
        } else {
            Some(storage_error_kind(t.col(c).storage_ty))
        },
        _ => match operand_literal(a) {
            Some(v) => if encodable(v) {
                None
            } else {
                Some(ErrorKind::UnsupportedFeature)
            },
            None => Some(ErrorKind::UnsupportedFeature),
        },
    }
}

/// The message of an assignment to column `c` that cannot be translated.
pub open spec fn assignment_fault(t: Table, c: ColumnId, a: Assignment) -> Seq<char> {
    match a {
        Assignment::Replace(Expr::Value(v)) => storage_fault(t.col(c).storage_ty, v),
        _ => match operand_literal(a) {
            Some(v) => encode_fault(v),
            None => unsupported_assignment_message(assignment_description(a)),
        },
    }
}

/// The message of the first assignment that cannot be translated.
pub open spec fn first_assignment_message(t: Table, asg: Seq<(ColumnId, Assignment)>) -> Seq<char>
    decreases asg.len(),
{
    if asg.len() == 0 {
        Seq::empty()
    } else if first_assignment_error(t, asg.drop_last()) is Some {
        first_assignment_message(t, asg.drop_last())
    } else {
        assignment_fault(t, asg.last().0, asg.last().1)
    }
}

/// `s` is the parameter an assignment to column `c` binds.
pub open spec fn assignment_param(t: Table, c: ColumnId, a: Assignment, s: SurValue) -> bool {
    match a {
        Assignment::Replace(Expr::Value(v)) => storage_encodes(t.col(c).storage_ty, v, s),
        Assignment::Add(Expr::Value(v)) => encodes(v, s),
        Assignment::Subtract(Expr::Value(v)) => encodes(v, s),
        Assignment::Append(Expr::Value(v)) => append_encodes(v, s),
        _ => false,
    }
}

/// The `SET` item of an assignment to column `c` whose parameter (if any) is
/// number `k`.
pub open spec fn assignment_text(t: Table, c: ColumnId, a: Assignment, k: nat) -> Seq<char> {
    let name = spec_escape_ident(t.col(c).name@);
    match a {
        Assignment::Replace(Expr::Value(v)) => if v is Null {
            name + " = NONE"@
        } else {
            name + " = "@ + placeholder(k)
        },
        Assignment::Add(Expr::Value(_)) => name + " = "@ + name + " + "@ + placeholder(k),
        Assignment::Subtract(Expr::Value(_)) => name + " = "@ + name + " - "@ + placeholder(k),
        Assignment::Append(Expr::Value(_)) => name + " += "@ + placeholder(k),
        _ => Seq::empty(),
    }
}

/// The number of parameters a sequence of assignments binds.
pub open spec fn params_before(asg: Seq<(ColumnId, Assignment)>) -> nat
    decreases asg.len(),
{
    if asg.len() == 0 {
        0
    } else {
        params_before(asg.drop_last()) + param_count(asg.last().1)
    }
}

/// The error of the first assignment that cannot be translated, if any.
pub open spec fn first_assignment_error(t: Table, asg: Seq<(ColumnId, Assignment)>) -> Option<ErrorKind>
    decreases asg.len(),
{
    if asg.len() == 0 {
        None
    } else {
        match first_assignment_error(t, asg.drop_last()) {
            Some(e) => Some(e),
            None => assignment_error(t, asg.last().0, asg.last().1),
        }
    }
}

/// The `SET` items of a sequence of assignments, numbered in order.
pub open spec fn assignment_texts(t: Table, asg: Seq<(ColumnId, Assignment)>) -> Seq<Seq<char>> {
    Seq::new(asg.len(), |i: int| assignment_text(t, asg[i].0, asg[i].1, params_before(asg.take(i))))
}

/// The parameters bound for the assignments: each assignment that binds one
/// binds it as `p<k>` at position `k`, `k` counting the parameters before it.
pub open spec fn assignment_binds(t: Table, asg: Seq<(ColumnId, Assignment)>, binds: Seq<(String, SurValue)>) -> bool {
    forall|i: int|
        #![trigger asg[i]]
        0 <= i < asg.len() && param_count(asg[i].1) == 1 ==> {
            let k = params_before(asg.take(i));
            &&& k < binds.len()
            &&& binds[k as int].0@ == "p"@ + spec_decimal(k)
            &&& assignment_param(t, asg[i].0, asg[i].1, binds[k as int].1)
        }
}

/// All the assignment targets are columns of `t`.
pub open spec fn targets_valid(t: Table, asg: Seq<(ColumnId, Assignment)>) -> bool {
    forall|i: int| 0 <= i < asg.len() ==> (#[trigger] asg[i]).0.index < t.columns@.len()
}

proof fn lemma_take_take<A>(s: Seq<A>, i: int, j: int)
    requires
        0 <= j <= i <= s.len(),
    ensures
        s.take(i).take(j) == s.take(j),
{
    assert(s.take(i).take(j) =~= s.take(j));
}

proof fn lemma_first_assignment_error_extends(t: Table, asg: Seq<(ColumnId, Assignment)>, i: int, n: int)
    requires
        0 < i <= n <= asg.len(),
        first_assignment_error(t, asg.take(i)) is Some,
    ensures
        first_assignment_error(t, asg.take(n)) == first_assignment_error(t, asg.take(i)),
        first_assignment_message(t, asg.take(n)) == first_assignment_message(t, asg.take(i)),
    decreases n - i,
{
    if i < n {
        assert(asg.take(i + 1).drop_last() =~= asg.take(i));
        lemma_first_assignment_error_extends(t, asg, i + 1, n);
    }
}

fn unsupported_assignment(a: &Assignment) -> (e: DriverError)
    ensures
        e.kind == ErrorKind::UnsupportedFeature,
        e.message@ == unsupported_assignment_message(assignment_description(*a)),
{
    let mut message = String::new();
    message.append("SurrealDB driver does not support update assignment: ");
    match a {
        Assignment::Other(d) => message.append(d.as_str()),
        Assignment::Replace(_) => message.append("Replace of a non-literal expression"),
        Assignment::Add(_) => message.append("Add of a non-literal expression"),
        Assignment::Subtract(_) => message.append("Subtract of a non-literal expression"),
        Assignment::Append(_) => message.append("Append of a non-literal expression"),
    }
    assert(message@ =~= unsupported_assignment_message(assignment_description(*a)));
    DriverError { kind: ErrorKind::UnsupportedFeature, message }
}

/// Encodes the operand of an append: a list as itself, anything else as a
/// one-item list.
fn append_operand(v: &Value) -> (r: Result<SurValue, DriverError>)
    ensures
        r is Ok <==> encodable(*v),
        r matches Ok(s) ==> append_encodes(*v, s),
        r matches Err(e) ==> e.kind == ErrorKind::UnsupportedFeature && e.message@ == encode_fault(*v),
{
    match v {
        Value::List(_) => to_surreal(v),
        _ => {
            let item = to_surreal(v)?;
            let mut items: Vec<SurValue> = Vec::new();
            items.push(item);
            Ok(SurValue::Array(items))
        },
    }
}

/// Renders the `SET` items of an update, binding their literals.
#[verifier::spinoff_prover]
fn render_assignments(table: &Table, binds: &mut Binds, assignments: &Vec<(ColumnId, Assignment)>) -> (r: Result<
    Vec<String>,
    DriverError,
>)
    requires
        old(binds).values@.len() == 0,
        targets_valid(*table, assignments@),
    ensures
        r is Ok <==> first_assignment_error(*table, assignments@) is None,
        r matches Err(e) ==> first_assignment_error(*table, assignments@) == Some(e.kind) && e.message@
            == first_assignment_message(*table, assignments@),
        r matches Ok(sets) ==> views(sets@) == assignment_texts(*table, assignments@)
            && final(binds).values@.len() == params_before(assignments@)
            && assignment_binds(*table, assignments@, final(binds).values@),
{
    let mut sets: Vec<String> = Vec::new();
    let n = assignments.len();
    let mut i: usize = 0;
    while i < n
        invariant
            n == assignments@.len(),
            i <= n,
            targets_valid(*table, assignments@),
            binds.values@.len() == params_before(assignments@.take(i as int)),
            views(sets@) == assignment_texts(*table, assignments@.take(i as int)),
            first_assignment_error(*table, assignments@.take(i as int)) is None,
            assignment_binds(*table, assignments@.take(i as int), binds.values@),
        decreases n - i,
    {
        let ghost asg = assignments@;
        let ghost before = binds.values@;
        let ghost sets_before = views(sets@);
        proof {
            assert(asg.take(i + 1).drop_last() =~= asg.take(i as int));
            assert(asg.take(i + 1).last() == asg[i as int]);
            assert(asg[i as int].0.index < table.columns@.len());
        }
        let (col, a) = (&assignments[i].0, &assignments[i].1);
        let column = &table.columns[col.index];
        let name = escape_ident(column.name.as_str());
        let mut item = name.clone();
        match a {
            Assignment::Replace(Expr::Value(v)) => {
                match v {
                    Value::Null => {
                        item.append(" = NONE");
                    },
                    _ => {
                        let enc = match to_surreal_for_column(v, column) {
                            Ok(s) => s,
                            Err(e) => {
                                proof {
                                    lemma_first_assignment_error_extends(*table, asg, i as int + 1, n as int);
                                    assert(asg.take(n as int) =~= asg);
                                }
                                return Err(e);
                            },
                        };
                        let ph = binds.push(enc);
                        item.append(" = ");
                        item.append(ph.as_str());
                    },
                }
            },
            Assignment::Add(Expr::Value(v)) | Assignment::Subtract(Expr::Value(v)) => {
                let enc = match to_surreal(v) {
                    Ok(s) => s,
                    Err(e) => {
                        proof {
                            lemma_first_assignment_error_extends(*table, asg, i as int + 1, n as int);
                            assert(asg.take(n as int) =~= asg);
                        }
                        return Err(e);
                    },
                };
                let ph = binds.push(enc);
                item.append(" = ");
                item.append(name.as_str());
                match a {
                    Assignment::Add(_) => item.append(" + "),
                    _ => item.append(" - "),
                }
                item.append(ph.as_str());
            },
            Assignment::Append(Expr::Value(v)) => {
                let enc = match append_operand(v) {
                    Ok(s) => s,
                    Err(e) => {
                        proof {
                            lemma_first_assignment_error_extends(*table, asg, i as int + 1, n as int);
                            assert(asg.take(n as int) =~= asg);
                        }
                        return Err(e);
                    },
                };
                let ph = binds.push(enc);
                item.append(" += ");
                item.append(ph.as_str());
            },
            _ => {
                proof {
                    lemma_first_assignment_error_extends(*table, asg, i as int + 1, n as int);
                    assert(asg.take(n as int) =~= asg);
                }
                return Err(unsupported_assignment(a));
            },
        }
        let ghost iv = item@;
        sets.push(item);
        proof {
            let k = params_before(asg.take(i as int));
            assert(iv =~= assignment_text(*table, asg[i as int].0, asg[i as int].1, k));
            assert(views(sets@) =~= sets_before.push(iv));
            assert forall|j: int| 0 <= j < i + 1 implies #[trigger] assignment_texts(*table, asg.take(i + 1))[j]
                == views(sets@)[j] by {
                lemma_take_take(asg, i + 1, j);
                if j < i {
                    lemma_take_take(asg, i as int, j);
                }
            }
            assert(views(sets@) =~= assignment_texts(*table, asg.take(i + 1)));
            assert forall|j: int|
                #![trigger asg.take(i + 1)[j]]
                0 <= j < i + 1 && param_count(asg.take(i + 1)[j].1) == 1 implies {
                let kj = params_before(asg.take(i + 1).take(j));
                &&& kj < binds.values@.len()
                &&& binds.values@[kj as int].0@ == "p"@ + spec_decimal(kj)
                &&& assignment_param(*table, asg.take(i + 1)[j].0, asg.take(i + 1)[j].1, binds.values@[kj as int].1)
            } by {
                lemma_take_take(asg, i + 1, j);
                if j < i {
                    lemma_take_take(asg, i as int, j);
                    assert(asg.take(i as int)[j] == asg[j]);
                    lemma_params_monotone(asg, j + 1, i as int);
                    assert(asg.take(j + 1).drop_last() =~= asg.take(j));
                }
            }
        }
        i = i + 1;
    }
    assert(assignments@.take(n as int) =~= assignments@);
    Ok(sets)
}

proof fn lemma_params_monotone(asg: Seq<(ColumnId, Assignment)>, i: int, n: int)
    requires
        0 <= i <= n <= asg.len(),
    ensures
        params_before(asg.take(i)) <= params_before(asg.take(n)),
    decreases n - i,
{
    if i < n {
        assert(asg.take(i + 1).drop_last() =~= asg.take(i));
        lemma_params_monotone(asg, i + 1, n);
    }
}

proof fn lemma_assignment_binds_prefix(
    t: Table,
    asg: Seq<(ColumnId, Assignment)>,
    x: Seq<(String, SurValue)>,
    z: Seq<(String, SurValue)>,
)
    requires
        assignment_binds(t, asg, x),
        x.len() <= z.len(),
        z.take(x.len() as int) == x,
    ensures
        assignment_binds(t, asg, z),
{
    assert forall|i: int|
        #![trigger asg[i]]
        0 <= i < asg.len() && param_count(asg[i].1) == 1 implies {
        let k = params_before(asg.take(i));
        &&& k < z.len()
        &&& z[k as int].0@ == "p"@ + spec_decimal(k)
        &&& assignment_param(t, asg[i].0, asg[i].1, z[k as int].1)
    } by {
        let k = params_before(asg.take(i));
        assert(z.take(x.len() as int)[k as int] == z[k as int]);
    }
}

/// `UPDATE $rid[ SET …][ WHERE …][ RETURN AFTER]`.
pub open spec fn update_sql(sets: Seq<Seq<char>>, preds: Seq<Seq<char>>, returning: bool) -> Seq<char> {
    "UPDATE $rid"@ + (if sets.len() == 0 {
        Seq::empty()
    } else {
        " SET "@ + spec_join(sets, ", "@)
    }) + where_clause(preds) + (if returning {
        " RETURN AFTER"@
    } else {
        Seq::empty()
    })
}

/// Why a keyed update cannot be built, if it cannot, in the order it is
/// checked: the number of keys, the assignments, the filter and condition,
/// the key.
pub open spec fn update_error(
    t: Table,
    keys: Seq<Value>,
    asg: Seq<(ColumnId, Assignment)>,
    filter: Option<Expr>,
    condition: Option<Expr>,
) -> Option<ErrorKind> {
    if keys.len() != 1 {
        Some(ErrorKind::InvalidStatement)
    } else {
        match first_assignment_error(t, asg) {
            Some(e) => Some(e),
            None => match guard_predicates(t, filter, condition, params_before(asg)) {
                None => Some(guard_fault(t, filter, condition, params_before(asg))),
                Some(_) => key_error(keys[0], t.primary_key@.len()),
            },
        }
    }
}

/// The message of a keyed update that cannot be built, from the same checks
/// that `update_error` reports the kind of.
pub open spec fn update_message(
    t: Table,
    keys: Seq<Value>,
    asg: Seq<(ColumnId, Assignment)>,
    filter: Option<Expr>,
    condition: Option<Expr>,
) -> Seq<char> {
    if keys.len() != 1 {
        key_count_message("update"@, keys.len())
    } else if first_assignment_error(t, asg) is Some {
        first_assignment_message(t, asg)
    } else if guard_predicates(t, filter, condition, params_before(asg)) is None {
        guard_message(t, filter, condition, params_before(asg))
    } else {
        key_fault(keys[0], t.primary_key@.len())
    }
}

/// The record id parameter `rid` of a keyed write of `key`.
pub open spec fn rid_param(t: Table, key: Value, b: (String, SurValue)) -> bool {
    &&& b.0@ == "rid"@
    &&& b.1 matches SurValue::RecordId(rid) && rid.table@ == t.name@ && builds_key(
        key,
        t.primary_key@.len(),
        rid.key,
    )
}

/// Updates the row with the given key when the filter and condition hold,
/// optionally returning the updated row. The engine sends one key per update.
#[verifier::rlimit(80)]
#[verifier::spinoff_prover]
pub fn update_by_key_query(
    table: &Table,
    keys: &Vec<Value>,
    assignments: &Vec<(ColumnId, Assignment)>,
    filter: &Option<Expr>,
    condition: &Option<Expr>,
    returning: bool,
) -> (r: Result<Query, DriverError>)
    requires
        targets_valid(*table, assignments@),
        *filter matches Some(e) ==> refs_valid(*table, e),
        *condition matches Some(e) ==> refs_valid(*table, e),
    ensures
        r is Ok <==> update_error(*table, keys@, assignments@, *filter, *condition) is None,
        r matches Err(e) ==> update_error(*table, keys@, assignments@, *filter, *condition) == Some(e.kind)
            && e.message@ == update_message(*table, keys@, assignments@, *filter, *condition),
        keys@.len() != 1 ==> (r matches Err(e) && e.message@ == key_count_message("update"@, keys@.len())),
        r matches Ok(q) ==> {
            let m = params_before(assignments@);
            &&& q.sql@ == update_sql(
                assignment_texts(*table, assignments@),
                guard_predicates(*table, *filter, *condition, m)->0,
                returning,
            )
            &&& assignment_binds(*table, assignments@, q.binds@)
            &&& binds_extend(q.binds@.take(m as int), q.binds@.drop_last(), guard_bound(*table, *filter, *condition))
            &&& q.binds@.len() > 0
            &&& rid_param(*table, keys@[0], q.binds@.last())
        },
{
    if keys.len() != 1 {
        return Err(key_count_error("update", keys.len()));
    }
    let mut binds = Binds::new();
    let sets = render_assignments(table, &mut binds, assignments)?;
    let ghost assigned = binds.values@;
    let predicates = render_guards(table, &mut binds, filter, condition)?;
    let ghost guarded = binds.values@;
    let rid = record_id(table, &keys[0])?;
    let ghost rv = rid;
    binds.push_named("rid", SurValue::RecordId(rid));
    let mut sql = String::new();
    sql.append("UPDATE $rid");
    if sets.len() > 0 {
        sql.append(" SET ");
        push_joined(&mut sql, &sets, ", ");
    }
    let ghost before_where = sql@;
    if predicates.len() > 0 {
        sql.append(" WHERE ");
        push_joined(&mut sql, &predicates, " AND ");
    }
    assert(sql@ =~= before_where + where_clause(views(predicates@)));
    if returning {
        sql.append(" RETURN AFTER");
    }
    assert(sql@ =~= update_sql(views(sets@), views(predicates@), returning));
    let q = Query { sql, binds: binds.into_vec() };
    proof {
        let m = params_before(assignments@);
        assert(q.binds@.drop_last() =~= guarded);
        assert(q.binds@.last().1 == SurValue::RecordId(rv));
        assert(guarded.take(m as int) == assigned);
        assert(q.binds@.take(m as int) =~= assigned);
        lemma_assignment_binds_prefix(*table, assignments@, assigned, q.binds@);
    }
    Ok(q)
}

/// The response of a keyed update: the returned rows when the update returns
/// them, else the number of updated rows; a conditional update that updated
/// nothing failed its condition.
pub fn update_response(
    table: &Table,
    rows: &Vec<SurValue>,
    has_condition: bool,
    returning: &Option<Vec<ColumnId>>,
) -> (r: Result<ExecResponse, DriverError>)
    requires
        *returning matches Some(cols) ==> cols_valid(*table, cols@),
    ensures
        rows@.len() == 0 && has_condition ==> (r matches Err(e) && e.kind == ErrorKind::ConditionFailed
            && e.message@ == "SurrealDB update condition did not match"@),
        !(rows@.len() == 0 && has_condition) ==> match *returning {
            None => r matches Ok(ExecResponse::Count(n)) && n == rows@.len(),
            Some(cols) => (r is Ok <==> forall|i: int|
                0 <= i < rows@.len() ==> #[trigger] row_decodable(*table, rows@[i], cols@)) && (r matches Ok(
                resp,
            ) ==> resp matches ExecResponse::Rows { records, next_cursor } && next_cursor is None
                && records@.len() == rows@.len() && forall|i: int|
                0 <= i < rows@.len() ==> #[trigger] record_decodes(*table, rows@[i], cols@, records@[i]@)),
        },
{
    if rows.len() == 0 && has_condition {
        return Err(DriverError::new(ErrorKind::ConditionFailed, "SurrealDB update condition did not match"));
    }
    match returning {
        Some(cols) => {
            let records = rows_to_records(table, rows, cols)?;
            Ok(ExecResponse::Rows { records, next_cursor: None })
        },
        None => Ok(ExecResponse::Count(rows.len() as u64)),
    }
}

// ---------------------------------------------------------------------------
// Returning projections
// ---------------------------------------------------------------------------

/// What an insert or upsert asks to have returned.
#[derive(Debug)]
pub enum Returning {
    /// A projection of a record expression, by its fields.
    Record(Vec<Expr>),
    /// A projection of an expression that is not a record.
    Project,
    /// A returning form other than a projection.
    Other,
}

/// The column a returning field references, if it is a column reference.
pub open spec fn field_column(e: Expr) -> Option<ColumnId> {
    match e {
        Expr::Reference(c) => Some(c),
        _ => None,
    }
}

/// The columns a returning projection decodes, or the message of why it
/// cannot: it must project a record of column references.
pub open spec fn returning_plan(t: Table, ret: Returning, verb: Seq<char>) -> Result<Seq<ColumnId>, Seq<char>> {
    match ret {
        Returning::Other => Err(verb + " returning is not a projection"@),
        Returning::Project => Err(verb + " returning must be a record"@),
        Returning::Record(fields) => if forall|i: int|
            0 <= i < fields@.len() ==> (#[trigger] field_column(fields@[i])) is Some {
            Ok(Seq::new(fields@.len(), |i: int| t.col(field_column(fields@[i])->0).id))
        } else {
            Err(verb + " returning item is not a column reference"@)
        },
    }
}

/// Every column reference of a returning projection designates a column of `t`.
pub open spec fn returning_valid(t: Table, ret: Option<Returning>) -> bool {
    ret matches Some(Returning::Record(fields)) ==> forall|i: int|
        0 <= i < fields@.len() ==> ((#[trigger] field_column(fields@[i])) matches Some(c) && c.index
            < t.columns@.len())
}

/// Whether every column reference of a returning projection designates a
/// column of the table.
pub fn returning_ok(table: &Table, returning: &Option<Returning>) -> (r: bool)
    ensures
        r == returning_valid(*table, *returning),
{
    match returning {
        Some(Returning::Record(fields)) => {
            let n = fields.len();
            let mut i: usize = 0;
            while i < n
                invariant
                    n == fields@.len(),
                    i <= n,
                    *returning == Some(Returning::Record(*fields)),
                    forall|k: int| 0 <= k < i ==> ((#[trigger] field_column(fields@[k])) matches Some(c)
                        && c.index < table.columns@.len()),
                decreases n - i,
            {
                match &fields[i] {
                    Expr::Reference(c) => {
                        if c.index >= table.columns.len() {
                            assert(field_column(fields@[i as int]) == Some(*c));
                            return false;
                        }
                    },
                    _ => {
                        assert(field_column(fields@[i as int]) is None);
                        return false;
                    },
                }
                i = i + 1;
            }
            true
        },
        _ => true,
    }
}

/// Resolves a returning projection into the columns to decode.
#[verifier::spinoff_prover]
pub fn returning_columns(table: &Table, returning: &Option<Returning>, verb: &str) -> (r: Result<
    Option<Vec<ColumnId>>,
    DriverError,
>)
    requires
        returning_valid(*table, *returning),
    ensures
        match *returning {
            None => r matches Ok(None),
            Some(ret) => match returning_plan(*table, ret, verb@) {
                Ok(cols) => r matches Ok(Some(v)) && v@ == cols,
                Err(m) => r matches Err(e) && e.kind == ErrorKind::InvalidStatement && e.message@ == m,
            },
        },
{
    match returning {
        None => Ok(None),
        Some(Returning::Other) => {
            let mut message = String::new();
            message.append(verb);
            message.append(" returning is not a projection");
            Err(DriverError { kind: ErrorKind::InvalidStatement, message })
        },
        Some(Returning::Project) => {
            let mut message = String::new();
            message.append(verb);
            message.append(" returning must be a record");
            Err(DriverError { kind: ErrorKind::InvalidStatement, message })
        },
        Some(Returning::Record(fields)) => {
            let mut cols: Vec<ColumnId> = Vec::new();
            let n = fields.len();
            let mut i: usize = 0;
            while i < n
                invariant
                    n == fields@.len(),
                    i <= n,
                    returning_valid(*table, *returning),
                    *returning == Some(Returning::Record(*fields)),
                    cols@.len() == i,
                    forall|j: int| 0 <= j < i ==> (#[trigger] field_column(fields@[j])) is Some,
                    forall|j: int| 0 <= j < i ==> #[trigger] cols@[j] == table.col(field_column(fields@[j])->0).id,
                decreases n - i,
            {
                match &fields[i] {
                    Expr::Reference(c) => {
                        assert(field_column(fields@[i as int]) == Some(*c));
                        cols.push(table.columns[c.index].id);
                    },
                    _ => {
                        assert(field_column(fields@[i as int]) is None);
                        let mut message = String::new();
                        message.append(verb);
                        message.append(" returning item is not a column reference");
                        return Err(DriverError { kind: ErrorKind::InvalidStatement, message });
                    },
                }
                i = i + 1;
            }
            assert(cols@ =~= Seq::new(fields@.len(), |i: int| table.col(field_column(fields@[i])->0).id));
            Ok(Some(cols))
        },
    }
}

// ---------------------------------------------------------------------------
// Values rows
// ---------------------------------------------------------------------------

/// The source of an insert: literal rows, or something else.
#[derive(Debug)]
pub enum InsertSource {
    /// `VALUES` rows, each by its entries.
    Values(Vec<Vec<Expr>>),
    /// Any other source, by its description.
    Other(String),
}

/// The literal at `position` of a values row, if the entry is one.
pub open spec fn row_lit(row: Seq<Expr>, p: int) -> Option<Value> {
    if 0 <= p < row.len() {
        match row[p] {
            Expr::Value(v) => Some(v),
            _ => None,
        }
    } else {
        None
    }
}

/// Why the entry at `p` cannot be written, if it cannot: it is not a
/// literal, or it is the non-null value of a non-key column that does not
/// encode for the column.
pub open spec fn position_error(t: Table, cols: Seq<ColumnId>, row: Seq<Expr>, p: int) -> Option<ErrorKind> {
    match row_lit(row, p) {
        None => Some(ErrorKind::InvalidStatement),
        Some(v) => if t.spec_is_primary_key(cols[p]) || v is Null || storage_ok(t.col(cols[p]).storage_ty, v) {
            None
        } else {
            Some(storage_error_kind(t.col(cols[p]).storage_ty))
        },
    }
}

/// The first of the first `n` positions that cannot be written, with its error.
pub open spec fn first_row_error(t: Table, cols: Seq<ColumnId>, row: Seq<Expr>, n: int) -> Option<(int, ErrorKind)>
    decreases n,
{
    if n <= 0 {
        None
    } else {
        match first_row_error(t, cols, row, n - 1) {
            Some(x) => Some(x),
            None => match position_error(t, cols, row, n - 1) {
                Some(k) => Some((n - 1, k)),
                None => None,
            },
        }
    }
}

/// The content fields among the first `n` positions: each non-key column
/// with a non-null literal, by name, value and storage type.
pub open spec fn content_plan(t: Table, cols: Seq<ColumnId>, row: Seq<Expr>, n: int) -> Seq<(Seq<char>, Value, crate::schema::StorageType)>
    decreases n,
{
    if n <= 0 {
        Seq::empty()
    } else {
        let prev = content_plan(t, cols, row, n - 1);
        match row_lit(row, n - 1) {
            Some(v) => if !t.spec_is_primary_key(cols[n - 1]) && !(v is Null) {
                prev.push((t.col(cols[n - 1]).name@, v, t.col(cols[n - 1]).storage_ty))
            } else {
                prev
            },
            None => prev,
        }
    }
}

/// `content` holds the planned fields, in order, each encoded for its column.
pub open spec fn content_encodes(plan: Seq<(Seq<char>, Value, crate::schema::StorageType)>, content: Seq<(String, SurValue)>) -> bool {
    &&& content.len() == plan.len()
    &&& forall|j: int|
        #![trigger content[j]]
        0 <= j < plan.len() ==> content[j].0@ == plan[j].0 && storage_encodes(plan[j].2, plan[j].1, content[j].1)
}

/// The literals of the first `m` positions whose column first appears in
/// primary-key slot `slot`, in position order.
pub open spec fn slot_values(t: Table, cols: Seq<ColumnId>, row: Seq<Expr>, slot: int, m: int) -> Seq<Value>
    decreases m,
{
    if m <= 0 {
        Seq::empty()
    } else {
        let prev = slot_values(t, cols, row, slot, m - 1);
        if t.spec_is_primary_key(cols[m - 1]) && pk_position(t.primary_key@, cols[m - 1]) == slot {
            match row_lit(row, m - 1) {
                Some(v) => prev.push(v),
                None => prev,
            }
        } else {
            prev
        }
    }
}

/// The key values of the first `q` primary-key slots, slot by slot.
pub open spec fn pk_parts_upto(t: Table, cols: Seq<ColumnId>, row: Seq<Expr>, q: int) -> Seq<Value>
    decreases q,
{
    if q <= 0 {
        Seq::empty()
    } else {
        pk_parts_upto(t, cols, row, q - 1) + slot_values(t, cols, row, q - 1, cols.len() as int)
    }
}

/// The primary-key values of a row, ordered by their column's position in
/// the primary key (a stable order for a column given twice).
pub open spec fn pk_parts(t: Table, cols: Seq<ColumnId>, row: Seq<Expr>) -> Seq<Value> {
    pk_parts_upto(t, cols, row, t.primary_key@.len() as int)
}

/// The message for a values-row entry that is not a literal.
pub open spec fn literal_message(verb: Seq<char>, p: nat) -> Seq<char> {
    "SurrealDB "@ + verb + " row entry did not lower to a literal at position "@ + spec_decimal(p)
}

/// The message of the row entry at position `p` that cannot be written:
/// an entry that is not a literal, or a literal that does not encode for its
/// column.
pub open spec fn row_fault(t: Table, cols: Seq<ColumnId>, row: Seq<Expr>, p: int, verb: Seq<char>) -> Seq<char> {
    match row_lit(row, p) {
        None => literal_message(verb, p as nat),
        Some(v) => storage_fault(t.col(cols[p]).storage_ty, v),
    }
}

/// All the target columns are columns of `t`.
pub open spec fn columns_valid(t: Table, cols: Seq<ColumnId>) -> bool {
    forall|p: int| 0 <= p < cols.len() ==> (#[trigger] cols[p]).index < t.columns@.len()
}

proof fn lemma_pk_position(pk: Seq<ColumnId>, id: ColumnId, pos: int)
    requires
        0 <= pos < pk.len(),
        pk[pos] == id,
        forall|k: int| 0 <= k < pos ==> pk[k] != id,
    ensures
        pk_position(pk, id) == pos,
{
    let p = pk_position(pk, id);
    assert(0 <= p < pk.len() && pk[p] == id && forall|q: int| 0 <= q < p ==> pk[q] != id);
    if p < pos {
        assert(pk[p] != id);
    } else if p > pos {
        assert(pk[pos] != id);
    }
}

fn literal_error(verb: &str, p: usize) -> (e: DriverError)
    ensures
        e.kind == ErrorKind::InvalidStatement,
        e.message@ == literal_message(verb@, p as nat),
{
    let mut message = String::new();
    message.append("SurrealDB ");
    message.append(verb);
    message.append(" row entry did not lower to a literal at position ");
    push_decimal(&mut message, p as u64);
    assert(message@ =~= literal_message(verb@, p as nat));
    DriverError { kind: ErrorKind::InvalidStatement, message }
}

/// Splits a values row into its record id (from the primary-key columns) and
/// its content (every other non-null column, encoded for the column).
#[verifier::spinoff_prover]
pub fn split_row(table: &Table, columns: &Vec<ColumnId>, row: &Vec<Expr>, verb: &str) -> (r: Result<
    (RecordId, Vec<(String, SurValue)>),
    DriverError,
>)
    requires
        columns_valid(*table, columns@),
    ensures
        match first_row_error(*table, columns@, row@, columns@.len() as int) {
            Some((p, k)) => r matches Err(e) && e.kind == k && (k == ErrorKind::InvalidStatement ==> e.message@
                == literal_message(verb@, p as nat)) && e.message@ == row_fault(*table, columns@, row@, p, verb@),
            None => match parts_error(pk_parts(*table, columns@, row@), table.primary_key@.len()) {
                Some(k) => r matches Err(e) && e.kind == k && e.message@ == parts_fault(
                    pk_parts(*table, columns@, row@),
                    table.primary_key@.len(),
                ),
                None => r matches Ok((rid, content)) && rid.table@ == table.name@ && builds_key_from_parts(
                    pk_parts(*table, columns@, row@),
                    table.primary_key@.len(),
                    rid.key,
                ) && content_encodes(content_plan(*table, columns@, row@, columns@.len() as int), content@),
            },
        },
{
    let n = columns.len();
    let mut content: Vec<(String, SurValue)> = Vec::new();
    let mut i: usize = 0;
    while i < n
        invariant
            n == columns@.len(),
            i <= n,
            columns_valid(*table, columns@),
            first_row_error(*table, columns@, row@, i as int) is None,
            forall|p: int| 0 <= p < i ==> (#[trigger] row_lit(row@, p)) is Some,
            content_encodes(content_plan(*table, columns@, row@, i as int), content@),
        decreases n - i,
    {
        let ghost before = content@;
        if i >= row.len() {
            proof {
                assert(row_lit(row@, i as int) is None);
                lemma_first_row_error_extends(*table, columns@, row@, i as int + 1, n as int);
            }
            return Err(literal_error(verb, i));
        }
        match &row[i] {
            Expr::Value(v) => {
                assert(row_lit(row@, i as int) == Some(*v));
                let col = columns[i];
                if table.is_primary_key(col) {
                } else {
                    match v {
                        Value::Null => {},
                        _ => {
                            let column = &table.columns[col.index];
                            let enc = match to_surreal_for_column(v, column) {
                                Ok(s) => s,
                                Err(e) => {
                                    proof {
                                        lemma_first_row_error_extends(*table, columns@, row@, i as int + 1, n as int);
                                    }
                                    return Err(e);
                                },
                            };
                            content.push((column.name.clone(), enc));
                            proof {
                                let plan = content_plan(*table, columns@, row@, i + 1);
                                assert(plan == content_plan(*table, columns@, row@, i as int).push(
                                    (table.col(col).name@, *v, table.col(col).storage_ty),
                                ));
                                assert forall|j: int| 0 <= j < plan.len() implies #[trigger] content@[j].0@ == plan[j].0
                                    && storage_encodes(plan[j].2, plan[j].1, content@[j].1) by {
                                    if j < before.len() {
                                        assert(content@[j] == before[j]);
                                    }
                                }
                            }
                        },
                    }
                }
            },
            _ => {
                proof {
                    assert(row_lit(row@, i as int) is None);
                    lemma_first_row_error_extends(*table, columns@, row@, i as int + 1, n as int);
                }
                return Err(literal_error(verb, i));
            },
        }
        i = i + 1;
    }
    let ghost parts_spec = pk_parts(*table, columns@, row@);
    let mut parts: Vec<&Value> = Vec::new();
    let k = table.primary_key.len();
    let mut q: usize = 0;
    while q < k
        invariant
            n == columns@.len(),
            k == table.primary_key@.len(),
            q <= k,
            columns_valid(*table, columns@),
            forall|p: int| 0 <= p < n ==> (#[trigger] row_lit(row@, p)) is Some,
            derefs(parts@) == pk_parts_upto(*table, columns@, row@, q as int),
        decreases k - q,
    {
        let ghost start = derefs(parts@);
        let mut j: usize = 0;
        while j < n
            invariant
                n == columns@.len(),
                k == table.primary_key@.len(),
                q < k,
                j <= n,
                forall|p: int| 0 <= p < n ==> (#[trigger] row_lit(row@, p)) is Some,
                derefs(parts@) == start + slot_values(*table, columns@, row@, q as int, j as int),
            decreases n - j,
        {
            assert(row_lit(row@, j as int) is Some);
            let ghost before = parts@;
            match table.primary_key_position(columns[j]) {
                Some(pos) => {
                    proof {
                        lemma_pk_position(table.primary_key@, columns@[j as int], pos as int);
                    }
                    if pos == q {
                        match &row[j] {
                            Expr::Value(v) => {
                                parts.push(v);
                                assert(derefs(parts@) =~= derefs(before).push(*v));
                            },
                            _ => {},
                        }
                    }
                },
                None => {},
            }
            j = j + 1;
        }
        q = q + 1;
    }
    assert(derefs(parts@) == parts_spec);
    let rid = record_id_from_parts(table, &parts)?;
    Ok((rid, content))
}

proof fn lemma_first_row_error_extends(t: Table, cols: Seq<ColumnId>, row: Seq<Expr>, i: int, n: int)
    requires
        0 < i <= n,
        first_row_error(t, cols, row, i) is Some,
    ensures
        first_row_error(t, cols, row, n) == first_row_error(t, cols, row, i),
    decreases n - i,
{
    if i < n {
        lemma_first_row_error_extends(t, cols, row, i + 1, n);
    }
}

// ---------------------------------------------------------------------------
// Insert
// ---------------------------------------------------------------------------

/// The rows of an insert, which must come from a `VALUES` source.
pub fn insert_rows(source: InsertSource) -> (r: Result<Vec<Vec<Expr>>, DriverError>)
    ensures
        match source {
            InsertSource::Values(rows) => r matches Ok(v) && v == rows,
            InsertSource::Other(_) => r matches Err(e) && e.kind == ErrorKind::InvalidStatement && e.message@
                == "SurrealDB insert requires a VALUES source"@,
        },
{
    match source {
        InsertSource::Values(rows) => Ok(rows),
        InsertSource::Other(_) => Err(DriverError::new(ErrorKind::InvalidStatement, "SurrealDB insert requires a VALUES source")),
    }
}

/// `CREATE $rid CONTENT $data[ RETURN AFTER]`.
pub open spec fn create_sql(want_return: bool) -> Seq<char> {
    "CREATE $rid CONTENT $data"@ + (if want_return {
        " RETURN AFTER"@
    } else {
        Seq::empty()
    })
}

/// The parameters of a `CREATE`: the record id of the row's key parts and
/// the row's content object.
pub open spec fn create_binds(t: Table, cols: Seq<ColumnId>, row: Seq<Expr>, binds: Seq<(String, SurValue)>) -> bool {
    &&& binds.len() == 2
    &&& binds[0].0@ == "rid"@
    &&& binds[0].1 matches SurValue::RecordId(rid) && rid.table@ == t.name@ && builds_key_from_parts(
        pk_parts(t, cols, row),
        t.primary_key@.len(),
        rid.key,
    )
    &&& binds[1].0@ == "data"@
    &&& binds[1].1 matches SurValue::Object(content) && content_encodes(
        content_plan(t, cols, row, cols.len() as int),
        content@,
    )
}

/// Why a row cannot be written, if it cannot: its first unwritable entry,
/// then its key.
pub open spec fn row_error(t: Table, cols: Seq<ColumnId>, row: Seq<Expr>) -> Option<ErrorKind> {
    match first_row_error(t, cols, row, cols.len() as int) {
        Some((_, k)) => Some(k),
        None => parts_error(pk_parts(t, cols, row), t.primary_key@.len()),
    }
}

/// The message of a row that cannot be written (see `row_error`).
pub open spec fn row_message(t: Table, cols: Seq<ColumnId>, row: Seq<Expr>, verb: Seq<char>) -> Seq<char> {
    match first_row_error(t, cols, row, cols.len() as int) {
        Some((p, _)) => row_fault(t, cols, row, p, verb),
        None => parts_fault(pk_parts(t, cols, row), t.primary_key@.len()),
    }
}

/// The `CREATE` of one inserted row. SurrealDB has no multi-id `CREATE`, so
/// each row is created on its own, with its record id set explicitly.
pub fn insert_row_query(table: &Table, columns: &Vec<ColumnId>, row: &Vec<Expr>, want_return: bool) -> (r: Result<
    Query,
    DriverError,
>)
    requires
        columns_valid(*table, columns@),
    ensures
        r is Ok <==> row_error(*table, columns@, row@) is None,
        r matches Err(e) ==> row_error(*table, columns@, row@) == Some(e.kind) && e.message@ == row_message(
            *table,
            columns@,
            row@,
            "insert"@,
        ),
        match first_row_error(*table, columns@, row@, columns@.len() as int) {
            Some((p, k)) => k == ErrorKind::InvalidStatement ==> (r matches Err(e) && e.message@ == literal_message(
                "insert"@,
                p as nat,
            )),
            None => true,
        },
        r matches Ok(q) ==> q.sql@ == create_sql(want_return) && create_binds(*table, columns@, row@, q.binds@),
{
    let (rid, content) = split_row(table, columns, row, "insert")?;
    let mut sql = String::new();
    sql.append("CREATE $rid CONTENT $data");
    if want_return {
        sql.append(" RETURN AFTER");
    }
    let mut binds: Vec<(String, SurValue)> = Vec::new();
    binds.push((String::from_str("rid"), SurValue::RecordId(rid)));
    binds.push((String::from_str("data"), SurValue::Object(content)));
    assert(sql@ =~= create_sql(want_return));
    Ok(Query { sql, binds })
}

/// The rows of several results, one after the other.
pub open spec fn flatten(rs: Seq<Seq<SurValue>>) -> Seq<SurValue>
    decreases rs.len(),
{
    if rs.len() == 0 {
        Seq::empty()
    } else {
        flatten(rs.drop_last()) + rs.last()
    }
}

/// The row sequences of several results.
pub open spec fn row_seqs(rs: Seq<Vec<SurValue>>) -> Seq<Seq<SurValue>> {
    rs.map_values(|v: Vec<SurValue>| v@)
}

/// The response of an insert, given the rows each `CREATE` returned: the
/// returned rows when the insert returns them, else the number of rows
/// inserted (one per `CREATE`).
#[verifier::spinoff_prover]
pub fn insert_response(
    table: &Table,
    created: &Vec<Vec<SurValue>>,
    returning: &Option<Vec<ColumnId>>,
) -> (r: Result<ExecResponse, DriverError>)
    requires
        *returning matches Some(cols) ==> cols_valid(*table, cols@),
    ensures
        match *returning {
            None => r matches Ok(ExecResponse::Count(n)) && n == created@.len(),
            Some(cols) => {
                let rows = flatten(row_seqs(created@));
                &&& (r is Ok <==> forall|i: int| 0 <= i < rows.len() ==> #[trigger] row_decodable(*table, rows[i], cols@))
                &&& (r matches Ok(resp) ==> resp matches ExecResponse::Rows { records, next_cursor } && next_cursor is None
                    && records@.len() == rows.len() && forall|i: int|
                    0 <= i < rows.len() ==> #[trigger] record_decodes(*table, rows[i], cols@, records@[i]@))
            },
        },
{
    match returning {
        None => Ok(ExecResponse::Count(created.len() as u64)),
        Some(cols) => {
            let mut records: Vec<Vec<Value>> = Vec::new();
            let n = created.len();
            let mut i: usize = 0;
            while i < n
                invariant
                    n == created@.len(),
                    i <= n,
                    cols_valid(*table, cols@),
                    *returning == Some(*cols),
                    ({
                        let rows = flatten(row_seqs(created@.take(i as int)));
                        &&& forall|j: int| 0 <= j < rows.len() ==> #[trigger] row_decodable(*table, rows[j], cols@)
                        &&& records@.len() == rows.len()
                        &&& forall|j: int|
                            0 <= j < rows.len() ==> #[trigger] record_decodes(*table, rows[j], cols@, records@[j]@)
                    }),
                decreases n - i,
            {
                let ghost prev_rows = flatten(row_seqs(created@.take(i as int)));
                let ghost before = records@;
                proof {
                    assert(row_seqs(created@.take(i + 1)).drop_last() =~= row_seqs(created@.take(i as int)));
                    assert(row_seqs(created@.take(i + 1)).last() == created@[i as int]@);
                }
                let mut decoded = match rows_to_records(table, &created[i], cols) {
                    Ok(d) => d,
                    Err(e) => {
                        proof {
                            let cur = created@[i as int]@;
                            let j0 = choose|j: int| 0 <= j < cur.len() && !row_decodable(*table, cur[j], cols@);
                            lemma_flatten_prefix(row_seqs(created@), i as int + 1, n as int);
                            assert(row_seqs(created@).take(i + 1) =~= row_seqs(created@.take(i + 1)));
                            assert(row_seqs(created@).take(n as int) =~= row_seqs(created@));
                            assert(flatten(row_seqs(created@.take(i + 1))) =~= prev_rows + cur);
                            let all = flatten(row_seqs(created@));
                            assert(flatten(row_seqs(created@).take(i + 1))[prev_rows.len() + j0] == cur[j0]);
                            assert(all[prev_rows.len() + j0] == cur[j0]);
                            assert(!row_decodable(*table, all[prev_rows.len() + j0], cols@));
                        }
                        assert(match *returning { None => false, Some(c) => c@ == cols@ });
                        return Err(e);
                    },
                };
                let ghost dv = decoded@;
                records.append(&mut decoded);
                proof {
                    let rows = flatten(row_seqs(created@.take(i + 1)));
                    let cur = created@[i as int]@;
                    assert(rows =~= prev_rows + cur);
                    assert forall|j: int| 0 <= j < rows.len() implies #[trigger] row_decodable(*table, rows[j], cols@)
                        && record_decodes(*table, rows[j], cols@, records@[j]@) by {
                        if j < prev_rows.len() {
                            assert(rows[j] == prev_rows[j]);
                            assert(records@[j] == before[j]);
                        } else {
                            assert(rows[j] == cur[j - prev_rows.len()]);
                            assert(records@[j] == dv[j - prev_rows.len()]);
                        }
                    }
                }
                i = i + 1;
            }
            assert(created@.take(n as int) =~= created@);
            Ok(ExecResponse::Rows { records, next_cursor: None })
        },
    }
}

proof fn lemma_flatten_prefix(rs: Seq<Seq<SurValue>>, i: int, n: int)
    requires
        0 <= i <= n <= rs.len(),
    ensures
        flatten(rs.take(n)).len() >= flatten(rs.take(i)).len(),
        forall|j: int| 0 <= j < flatten(rs.take(i)).len() ==> #[trigger] flatten(rs.take(n))[j] == flatten(rs.take(i))[j],
    decreases n - i,
{
    if i < n {
        lemma_flatten_prefix(rs, i + 1, n);
        assert(rs.take(i + 1).drop_last() =~= rs.take(i));
    }
}

// ---------------------------------------------------------------------------
// Upsert
// ---------------------------------------------------------------------------

/// What an upsert does when the row already exists.
#[derive(Clone, Copy, PartialEq, Eq, Structural, Debug)]
pub enum UpsertAction {
    /// Create or update.
    Update,
    /// Insert or ignore.
    Ignore,
}

/// The upsert clause of an insert.
#[derive(Debug)]
pub struct UpsertClause {
    /// The conflict target's columns, or `None` when the target was not
    /// lowered to columns.
    pub target: Option<Vec<ColumnId>>,
    /// Mutations applied on both the create and the update branch.
    pub shared: Vec<(ColumnId, Assignment)>,
    /// The declared create-branch defaults of shared columns.
    pub defaults: Vec<(ColumnId, Assignment)>,
    pub action: UpsertAction,
}

/// Whether a shared mutation targets the column at position `c.index`.
pub open spec fn shared_has(shared: Seq<(ColumnId, Assignment)>, c: ColumnId) -> bool {
    exists|i: int| 0 <= i < shared.len() && (#[trigger] shared[i]).0.index == c.index
}

/// The first of the first `n` entries of `entries` for the column at
/// `c.index`, if any.
pub open spec fn entry_for(entries: Seq<(ColumnId, Assignment)>, c: ColumnId, n: int) -> Option<int>
    decreases n,
{
    if n <= 0 {
        None
    } else {
        match entry_for(entries, c, n - 1) {
            Some(i) => Some(i),
            None => if entries[n - 1].0.index == c.index {
                Some(n - 1)
            } else {
                None
            },
        }
    }
}

/// The literal default declared for column `c`, if its default is a literal
/// replacement.
pub open spec fn default_literal(defaults: Seq<(ColumnId, Assignment)>, c: ColumnId) -> Option<Value> {
    match entry_for(defaults, c, defaults.len() as int) {
        Some(i) => match defaults[i].1 {
            Assignment::Replace(Expr::Value(d)) => Some(d),
            _ => None,
        },
        None => None,
    }
}

/// The number of parameters a shared mutation binds: its default (for an
/// operator mutation) and its operand.
pub open spec fn shared_param_count(a: Assignment) -> nat {
    match a {
        Assignment::Replace(Expr::Value(v)) => if v is Null {
            0
        } else {
            1
        },
        _ => if operand_literal(a) is Some {
            2
        } else {
            0
        },
    }
}

/// Why a shared mutation of column `c` cannot be translated, if it cannot.
pub open spec fn shared_error(t: Table, c: ColumnId, a: Assignment, defaults: Seq<(ColumnId, Assignment)>) -> Option<ErrorKind> {
    match a {
        Assignment::Replace(Expr::Value(v)) => if v is Null || storage_ok(t.col(c).storage_ty, v) {
            None
        } else {
            Some(storage_error_kind(t.col(c).storage_ty))
        },
        _ => match operand_literal(a) {
            Some(v) => match default_literal(defaults, c) {
                None => Some(ErrorKind::InvalidStatement),
                Some(d) => if encodable(d) && encodable(v) {
                    None
                } else {
                    Some(ErrorKind::UnsupportedFeature)
                },
            },
            None => Some(ErrorKind::UnsupportedFeature),
        },
    }
}

/// The message of a shared upsert mutation that cannot be translated.
pub open spec fn unsupported_shared_message(desc: Seq<char>) -> Seq<char> {
    "SurrealDB driver does not support shared upsert mutation: "@ + desc
}

/// The message of a shared mutation of column `c` that cannot be translated,
/// following the checks of `shared_error` in order.
pub open spec fn shared_fault(t: Table, c: ColumnId, a: Assignment, defaults: Seq<(ColumnId, Assignment)>) -> Seq<char> {
    match a {
        Assignment::Replace(Expr::Value(v)) => storage_fault(t.col(c).storage_ty, v),
        _ => match operand_literal(a) {
            Some(v) => match default_literal(defaults, c) {
                None => "SurrealDB shared upsert mutation requires a literal #[default] value"@,
                Some(d) => if !encodable(d) {
                    encode_fault(d)
                } else {
                    encode_fault(v)
                },
            },
            None => unsupported_shared_message(assignment_description(a)),
        },
    }
}

/// The message of the first of the first `n` shared mutations that cannot
/// be translated.
pub open spec fn first_shared_fault(t: Table, shared: Seq<(ColumnId, Assignment)>, defaults: Seq<(ColumnId, Assignment)>, n: int) -> Seq<char>
    decreases n,
{
    if n <= 0 {
        Seq::empty()
    } else if first_shared_error(t, shared, defaults, n - 1) is Some {
        first_shared_fault(t, shared, defaults, n - 1)
    } else {
        shared_fault(t, shared[n - 1].0, shared[n - 1].1, defaults)
    }
}

/// The `SET` item of a shared mutation of column `c` whose first parameter is
/// number `k`: an operator mutation folds in the create-branch default
/// (`col ?? default`).
pub open spec fn shared_text(t: Table, c: ColumnId, a: Assignment, k: nat) -> Seq<char> {
    let name = spec_escape_ident(t.col(c).name@);
    match a {
        Assignment::Replace(Expr::Value(v)) => if v is Null {
            name + " = NONE"@
        } else {
            name + " = "@ + placeholder(k)
        },
        Assignment::Add(Expr::Value(_)) => name + " = ("@ + name + " ?? "@ + placeholder(k) + ") + "@
            + placeholder(k + 1),
        Assignment::Subtract(Expr::Value(_)) => name + " = ("@ + name + " ?? "@ + placeholder(k) + ") - "@
            + placeholder(k + 1),
        Assignment::Append(Expr::Value(_)) => name + " = array::concat("@ + name + " ?? "@ + placeholder(k)
            + ", "@ + placeholder(k + 1) + ")"@,
        _ => Seq::empty(),
    }
}

/// The parameters of a shared mutation of column `c`, starting at `k`.
#[verifier::opaque]
pub open spec fn shared_params(
    t: Table,
    c: ColumnId,
    a: Assignment,
    defaults: Seq<(ColumnId, Assignment)>,
    k: nat,
    binds: Seq<(String, SurValue)>,
) -> bool {
    &&& k + shared_param_count(a) <= binds.len()
    &&& forall|j: int| k <= j < k + shared_param_count(a) ==> (#[trigger] binds[j]).0@ == "p"@ + spec_decimal(j as nat)
    &&& match a {
        Assignment::Replace(Expr::Value(v)) => v is Null || storage_encodes(t.col(c).storage_ty, v, binds[k as int].1),
        Assignment::Add(Expr::Value(v)) => encodes(default_literal(defaults, c)->0, binds[k as int].1) && encodes(v, binds[k + 1int].1),
        Assignment::Subtract(Expr::Value(v)) => encodes(default_literal(defaults, c)->0, binds[k as int].1) && encodes(v, binds[k + 1int].1),
        Assignment::Append(Expr::Value(v)) => encodes(default_literal(defaults, c)->0, binds[k as int].1) && append_encodes(v, binds[k + 1int].1),
        _ => true,
    }
}

/// The number of parameters the first `n` shared mutations bind.
pub open spec fn shared_params_before(shared: Seq<(ColumnId, Assignment)>, n: int) -> nat
    decreases n,
{
    if n <= 0 {
        0
    } else {
        shared_params_before(shared, n - 1) + shared_param_count(shared[n - 1].1)
    }
}

/// The error of the first of the first `n` shared mutations that cannot be
/// translated, if any.
pub open spec fn first_shared_error(t: Table, shared: Seq<(ColumnId, Assignment)>, defaults: Seq<(ColumnId, Assignment)>, n: int) -> Option<ErrorKind>
    decreases n,
{
    if n <= 0 {
        None
    } else {
        match first_shared_error(t, shared, defaults, n - 1) {
            Some(e) => Some(e),
            None => shared_error(t, shared[n - 1].0, shared[n - 1].1, defaults),
        }
    }
}

proof fn lemma_first_shared_error_extends(
    t: Table,
    shared: Seq<(ColumnId, Assignment)>,
    defaults: Seq<(ColumnId, Assignment)>,
    i: int,
    n: int,
)
    requires
        0 < i <= n,
        first_shared_error(t, shared, defaults, i) is Some,
    ensures
        first_shared_error(t, shared, defaults, n) == first_shared_error(t, shared, defaults, i),
        first_shared_fault(t, shared, defaults, n) == first_shared_fault(t, shared, defaults, i),
    decreases n - i,
{
    if i < n {
        lemma_first_shared_error_extends(t, shared, defaults, i + 1, n);
    }
}

proof fn lemma_entry_for(entries: Seq<(ColumnId, Assignment)>, c: ColumnId, n: int)
    requires
        0 <= n <= entries.len(),
    ensures
        match entry_for(entries, c, n) {
            Some(i) => 0 <= i < n && entries[i].0.index == c.index && forall|j: int|
                0 <= j < i ==> (#[trigger] entries[j]).0.index != c.index,
            None => forall|j: int| 0 <= j < n ==> (#[trigger] entries[j]).0.index != c.index,
        },
    decreases n,
{
    if n > 0 {
        lemma_entry_for(entries, c, n - 1);
    }
}

/// Finds the declared default entry of a column.
fn find_default(defaults: &Vec<(ColumnId, Assignment)>, c: ColumnId) -> (r: Option<usize>)
    ensures
        match r {
            Some(i) => i < defaults@.len() && entry_for(defaults@, c, defaults@.len() as int) == Some(i as int),
            None => entry_for(defaults@, c, defaults@.len() as int) is None,
        },
{
    let n = defaults.len();
    let mut i: usize = 0;
    while i < n
        invariant
            n == defaults@.len(),
            i <= n,
            entry_for(defaults@, c, i as int) is None,
        decreases n - i,
    {
        if defaults[i].0.index == c.index {
            proof {
                assert(entry_for(defaults@, c, i as int + 1) == Some(i as int));
                lemma_entry_for_stable(defaults@, c, i as int + 1, n as int);
            }
            return Some(i);
        }
        i = i + 1;
    }
    None
}

proof fn lemma_entry_for_stable(entries: Seq<(ColumnId, Assignment)>, c: ColumnId, i: int, n: int)
    requires
        0 < i <= n,
        entry_for(entries, c, i) is Some,
    ensures
        entry_for(entries, c, n) == entry_for(entries, c, i),
    decreases n - i,
{
    if i < n {
        lemma_entry_for_stable(entries, c, i + 1, n);
    }
}

/// Binds the create-branch default of a shared operator mutation.
fn bind_default(defaults: &Vec<(ColumnId, Assignment)>, c: ColumnId, binds: &mut Binds) -> (r: Result<String, DriverError>)
    ensures
        r is Ok <==> (default_literal(defaults@, c) matches Some(d) && encodable(d)),
        default_literal(defaults@, c) is None ==> (r matches Err(e) && e.kind == ErrorKind::InvalidStatement
            && e.message@ == "SurrealDB shared upsert mutation requires a literal #[default] value"@),
        (default_literal(defaults@, c) is Some && r is Err) ==> (r matches Err(e) && e.kind
            == ErrorKind::UnsupportedFeature && e.message@ == encode_fault(default_literal(defaults@, c)->0)),
        r matches Ok(ph) ==> ph@ == placeholder(old(binds).values@.len()) && final(binds).values@.len()
            == old(binds).values@.len() + 1 && final(binds).values@.take(old(binds).values@.len() as int)
            == old(binds).values@ && final(binds).values@.last().0@ == "p"@ + spec_decimal(
            old(binds).values@.len(),
        ) && encodes(default_literal(defaults@, c)->0, final(binds).values@.last().1),
        r is Err ==> final(binds).values@ == old(binds).values@,
{
    match find_default(defaults, c) {
        Some(i) => match &defaults[i].1 {
            Assignment::Replace(Expr::Value(d)) => {
                let enc = to_surreal(d)?;
                let ghost before = binds.values@;
                let ph = binds.push(enc);
                assert(binds.values@.take(before.len() as int) =~= before);
                Ok(ph)
            },
            _ => Err(
                DriverError::new(
                    ErrorKind::InvalidStatement,
                    "SurrealDB shared upsert mutation requires a literal #[default] value",
                ),
            ),
        },
        None => Err(
            DriverError::new(
                ErrorKind::InvalidStatement,
                "SurrealDB shared upsert mutation requires a literal #[default] value",
            ),
        ),
    }
}

/// The `SET` items of the shared mutations, the first binding parameter `m0`.
pub open spec fn shared_texts(t: Table, shared: Seq<(ColumnId, Assignment)>, m0: nat) -> Seq<Seq<char>> {
    Seq::new(
        shared.len(),
        |i: int| shared_text(t, shared[i].0, shared[i].1, m0 + shared_params_before(shared, i)),
    )
}

/// The parameters of all the shared mutations, the first at `m0`.
pub open spec fn shared_binds(
    t: Table,
    shared: Seq<(ColumnId, Assignment)>,
    defaults: Seq<(ColumnId, Assignment)>,
    m0: nat,
    binds: Seq<(String, SurValue)>,
) -> bool {
    forall|i: int|
        #![trigger shared[i]]
        0 <= i < shared.len() ==> shared_params(
            t,
            shared[i].0,
            shared[i].1,
            defaults,
            m0 + shared_params_before(shared, i),
            binds,
        )
}

proof fn lemma_shared_params_prefix(
    t: Table,
    c: ColumnId,
    a: Assignment,
    defaults: Seq<(ColumnId, Assignment)>,
    k: nat,
    x: Seq<(String, SurValue)>,
    y: Seq<(String, SurValue)>,
)
    requires
        shared_params(t, c, a, defaults, k, x),
        x.len() <= y.len(),
        y.take(x.len() as int) == x,
    ensures
        shared_params(t, c, a, defaults, k, y),
{
    reveal(shared_params);
    assert forall|j: int| 0 <= j < x.len() implies #[trigger] y[j] == x[j] by {
        assert(y.take(x.len() as int)[j] == y[j]);
    }
}

fn unsupported_shared(a: &Assignment) -> (e: DriverError)
    ensures
        e.kind == ErrorKind::UnsupportedFeature,
        e.message@ == unsupported_shared_message(assignment_description(*a)),
{
    let mut message = String::new();
    message.append("SurrealDB driver does not support shared upsert mutation: ");
    match a {
        Assignment::Other(d) => message.append(d.as_str()),
        Assignment::Replace(_) => message.append("Replace of a non-literal expression"),
        Assignment::Add(_) => message.append("Add of a non-literal expression"),
        Assignment::Subtract(_) => message.append("Subtract of a non-literal expression"),
        Assignment::Append(_) => message.append("Append of a non-literal expression"),
    }
    assert(message@ =~= unsupported_shared_message(assignment_description(*a)));
    DriverError { kind: ErrorKind::UnsupportedFeature, message }
}

/// Renders one shared mutation of column `col` into its `SET` item.
fn render_one_shared(
    table: &Table,
    binds: &mut Binds,
    col: ColumnId,
    a: &Assignment,
    defaults: &Vec<(ColumnId, Assignment)>,
) -> (r: Result<String, DriverError>)
    requires
        col.index < table.columns@.len(),
    ensures
        r is Ok <==> shared_error(*table, col, *a, defaults@) is None,
        r matches Err(e) ==> shared_error(*table, col, *a, defaults@) == Some(e.kind) && e.message@ == shared_fault(
            *table,
            col,
            *a,
            defaults@,
        ),
        r matches Ok(item) ==> {
            let k = old(binds).values@.len();
            &&& item@ == shared_text(*table, col, *a, k)
            &&& final(binds).values@.len() == k + shared_param_count(*a)
            &&& final(binds).values@.take(k as int) == old(binds).values@
            &&& shared_params(*table, col, *a, defaults@, k, final(binds).values@)
        },
{
    let ghost before = binds.values@;
    let ghost k = before.len();
    let column = &table.columns[col.index];
    let name = escape_ident(column.name.as_str());
    let mut item = name.clone();
    match a {
        Assignment::Replace(Expr::Value(v)) => {
            match v {
                Value::Null => {
                    item.append(" = NONE");
                    assert(binds.values@.take(k as int) =~= before);
                },
                _ => {
                    let enc = to_surreal_for_column(v, column)?;
                    let ph = binds.push(enc);
                    item.append(" = ");
                    item.append(ph.as_str());
                    assert(binds.values@.take(k as int) =~= before);
                },
            }
        },
        Assignment::Add(Expr::Value(v)) | Assignment::Subtract(Expr::Value(v)) | Assignment::Append(Expr::Value(v)) => {
            let d = bind_default(defaults, col, binds)?;
            let ghost mid = binds.values@;
            let enc = match a {
                Assignment::Append(_) => append_operand(v),
                _ => to_surreal(v),
            };
            let enc = enc?;
            let ph = binds.push(enc);
            proof {
                assert(binds.values@.take(mid.len() as int) =~= mid);
                assert(binds.values@.take(k as int) =~= before) by {
                    assert(binds.values@.take(k as int) =~= binds.values@.take(mid.len() as int).take(k as int));
                }
                assert(binds.values@[k as int] == mid[k as int]);
            }
            match a {
                Assignment::Append(_) => {
                    item.append(" = array::concat(");
                    item.append(name.as_str());
                    item.append(" ?? ");
                    item.append(d.as_str());
                    item.append(", ");
                    item.append(ph.as_str());
                    item.append(")");
                },
                _ => {
                    item.append(" = (");
                    item.append(name.as_str());
                    item.append(" ?? ");
                    item.append(d.as_str());
                    match a {
                        Assignment::Add(_) => item.append(") + "),
                        _ => item.append(") - "),
                    }
                    item.append(ph.as_str());
                },
            }
        },
        _ => {
            return Err(unsupported_shared(a));
        },
    }
    assert(item@ =~= shared_text(*table, col, *a, k));
    proof {
        reveal(shared_params);
    }
    Ok(item)
}

/// Renders the shared upsert mutations into `SET` items, folding each
/// operator mutation's declared create-branch default in with `col ?? d`.
#[verifier::spinoff_prover]
fn render_shared(
    table: &Table,
    binds: &mut Binds,
    shared: &Vec<(ColumnId, Assignment)>,
    defaults: &Vec<(ColumnId, Assignment)>,
    sets: &mut Vec<String>,
) -> (r: Result<(), DriverError>)
    requires
        targets_valid(*table, shared@),
    ensures
        r is Ok <==> first_shared_error(*table, shared@, defaults@, shared@.len() as int) is None,
        r matches Err(e) ==> first_shared_error(*table, shared@, defaults@, shared@.len() as int) == Some(e.kind)
            && e.message@ == first_shared_fault(*table, shared@, defaults@, shared@.len() as int),
        r is Ok ==> {
            let m0 = old(binds).values@.len();
            &&& views(final(sets)@) == views(old(sets)@) + shared_texts(*table, shared@, m0)
            &&& final(binds).values@.len() == m0 + shared_params_before(shared@, shared@.len() as int)
            &&& final(binds).values@.take(m0 as int) == old(binds).values@
            &&& shared_binds(*table, shared@, defaults@, m0, final(binds).values@)
        },
{
    let ghost b0 = binds.values@;
    let ghost m0 = b0.len();
    let ghost s0 = views(sets@);
    let n = shared.len();
    let mut i: usize = 0;
    while i < n
        invariant
            n == shared@.len(),
            i <= n,
            targets_valid(*table, shared@),
            m0 == b0.len(),
            binds.values@.len() == m0 + shared_params_before(shared@, i as int),
            binds.values@.take(m0 as int) == b0,
            views(sets@) == s0 + Seq::new(
                i as nat,
                |j: int| shared_text(*table, shared@[j].0, shared@[j].1, m0 + shared_params_before(shared@, j)),
            ),
            first_shared_error(*table, shared@, defaults@, i as int) is None,
            forall|j: int|
                #![trigger shared@[j]]
                0 <= j < i ==> shared_params(
                    *table,
                    shared@[j].0,
                    shared@[j].1,
                    defaults@,
                    m0 + shared_params_before(shared@, j),
                    binds.values@,
                ),
        decreases n - i,
    {
        let ghost before = binds.values@;
        let ghost sets_before = views(sets@);
        assert(shared@[i as int].0.index < table.columns@.len());
        let item = match render_one_shared(table, binds, shared[i].0, &shared[i].1, defaults) {
            Ok(item) => item,
            Err(e) => {
                proof {
                    lemma_first_shared_error_extends(*table, shared@, defaults@, i as int + 1, n as int);
                }
                return Err(e);
            },
        };
        let ghost iv = item@;
        sets.push(item);
        proof {
            assert(views(sets@) =~= sets_before.push(iv));
            assert(views(sets@) =~= s0 + Seq::new(
                (i + 1) as nat,
                |j: int| shared_text(*table, shared@[j].0, shared@[j].1, m0 + shared_params_before(shared@, j)),
            ));
            assert(binds.values@.take(m0 as int) =~= b0) by {
                assert(binds.values@.take(m0 as int) =~= binds.values@.take(before.len() as int).take(m0 as int));
            }
            assert forall|j: int|
                #![trigger shared@[j]]
                0 <= j < i + 1 implies shared_params(
                *table,
                shared@[j].0,
                shared@[j].1,
                defaults@,
                m0 + shared_params_before(shared@, j),
                binds.values@,
            ) by {
                if j < i {
                    lemma_shared_params_prefix(
                        *table,
                        shared@[j].0,
                        shared@[j].1,
                        defaults@,
                        m0 + shared_params_before(shared@, j),
                        before,
                        binds.values@,
                    );
                }
            }
        }
        i = i + 1;
    }
    proof {
        assert(Seq::new(
            n as nat,
            |j: int| shared_text(*table, shared@[j].0, shared@[j].1, m0 + shared_params_before(shared@, j)),
        ) =~= shared_texts(*table, shared@, m0));
    }
    Ok(())
}

/// The create-only fields among the first `n` positions: each non-key column
/// without a shared mutation whose literal is not null, by name, value and
/// storage type.
pub open spec fn create_only_plan(
    t: Table,
    cols: Seq<ColumnId>,
    row: Seq<Expr>,
    shared: Seq<(ColumnId, Assignment)>,
    n: int,
) -> Seq<(Seq<char>, Value, crate::schema::StorageType)>
    decreases n,
{
    if n <= 0 {
        Seq::empty()
    } else {
        let prev = create_only_plan(t, cols, row, shared, n - 1);
        match row_lit(row, n - 1) {
            Some(v) => if !t.spec_is_primary_key(cols[n - 1]) && !shared_has(shared, cols[n - 1]) && !(v is Null) {
                prev.push((t.col(cols[n - 1]).name@, v, t.col(cols[n - 1]).storage_ty))
            } else {
                prev
            },
            None => prev,
        }
    }
}

/// The `SET` items of the create-only fields: `col = col ?? $p<j>` keeps an
/// existing value and sets it when absent.
pub open spec fn create_only_texts(plan: Seq<(Seq<char>, Value, crate::schema::StorageType)>) -> Seq<Seq<char>> {
    Seq::new(
        plan.len(),
        |j: int| spec_escape_ident(plan[j].0) + " = "@ + spec_escape_ident(plan[j].0) + " ?? "@ + placeholder(j as nat),
    )
}

/// The parameters of the create-only fields, from `p0` on.
pub open spec fn create_only_binds(plan: Seq<(Seq<char>, Value, crate::schema::StorageType)>, binds: Seq<(String, SurValue)>) -> bool {
    &&& plan.len() <= binds.len()
    &&& forall|j: int|
        #![trigger binds[j]]
        0 <= j < plan.len() ==> binds[j].0@ == "p"@ + spec_decimal(j as nat) && storage_encodes(
            plan[j].2,
            plan[j].1,
            binds[j].1,
        )
}

proof fn lemma_first_row_error_none(t: Table, cols: Seq<ColumnId>, row: Seq<Expr>, n: int)
    requires
        first_row_error(t, cols, row, n) is None,
    ensures
        forall|p: int| 0 <= p < n ==> #[trigger] position_error(t, cols, row, p) is None,
    decreases n,
{
    if n > 0 {
        lemma_first_row_error_none(t, cols, row, n - 1);
    }
}

/// Whether a shared mutation targets the column at position `c.index`.
fn has_shared(shared: &Vec<(ColumnId, Assignment)>, c: ColumnId) -> (r: bool)
    ensures
        r == shared_has(shared@, c),
{
    let n = shared.len();
    let mut i: usize = 0;
    while i < n
        invariant
            n == shared@.len(),
            i <= n,
            forall|j: int| 0 <= j < i ==> (#[trigger] shared@[j]).0.index != c.index,
        decreases n - i,
    {
        if shared[i].0.index == c.index {
            assert(shared@[i as int].0.index == c.index);
            return true;
        }
        i = i + 1;
    }
    false
}

/// Renders the create-only `SET` items of a row whose entries all write.
#[verifier::spinoff_prover]
fn render_create_only(
    table: &Table,
    columns: &Vec<ColumnId>,
    row: &Vec<Expr>,
    shared: &Vec<(ColumnId, Assignment)>,
    binds: &mut Binds,
    sets: &mut Vec<String>,
)
    requires
        columns_valid(*table, columns@),
        old(binds).values@.len() == 0,
        old(sets)@.len() == 0,
        first_row_error(*table, columns@, row@, columns@.len() as int) is None,
    ensures
        ({
            let plan = create_only_plan(*table, columns@, row@, shared@, columns@.len() as int);
            &&& views(final(sets)@) == create_only_texts(plan)
            &&& final(binds).values@.len() == plan.len()
            &&& create_only_binds(plan, final(binds).values@)
        }),
{
    proof {
        lemma_first_row_error_none(*table, columns@, row@, columns@.len() as int);
    }
    let n = columns.len();
    let mut i: usize = 0;
    while i < n
        invariant
            n == columns@.len(),
            i <= n,
            columns_valid(*table, columns@),
            forall|p: int| 0 <= p < n ==> #[trigger] position_error(*table, columns@, row@, p) is None,
            ({
                let plan = create_only_plan(*table, columns@, row@, shared@, i as int);
                &&& views(sets@) == create_only_texts(plan)
                &&& binds.values@.len() == plan.len()
                &&& create_only_binds(plan, binds.values@)
            }),
        decreases n - i,
    {
        let ghost plan0 = create_only_plan(*table, columns@, row@, shared@, i as int);
        let ghost before = binds.values@;
        let ghost sets_before = views(sets@);
        assert(position_error(*table, columns@, row@, i as int) is None);
        let col = columns[i];
        match &row[i] {
            Expr::Value(v) => {
                assert(row_lit(row@, i as int) == Some(*v));
                let skip = table.is_primary_key(col) || has_shared(shared, col);
                match v {
                    Value::Null => {},
                    _ => {
                        if !skip {
                            let column = &table.columns[col.index];
                            match to_surreal_for_column(v, column) {
                                Ok(enc) => {
                                    let ph = binds.push(enc);
                                    let name = escape_ident(column.name.as_str());
                                    let mut item = name.clone();
                                    item.append(" = ");
                                    item.append(name.as_str());
                                    item.append(" ?? ");
                                    item.append(ph.as_str());
                                    let ghost iv = item@;
                                    sets.push(item);
                                    proof {
                                        let plan = create_only_plan(*table, columns@, row@, shared@, i + 1);
                                        assert(plan == plan0.push((table.col(col).name@, *v, table.col(col).storage_ty)));
                                        assert(views(sets@) =~= sets_before.push(iv));
                                        assert(views(sets@) =~= create_only_texts(plan));
                                        assert forall|j: int|
                                            #![trigger binds.values@[j]]
                                            0 <= j < plan.len() implies binds.values@[j].0@ == "p"@ + spec_decimal(j as nat)
                                            && storage_encodes(plan[j].2, plan[j].1, binds.values@[j].1) by {
                                            if j < plan0.len() {
                                                assert(binds.values@[j] == before[j]);
                                            }
                                        }
                                    }
                                },
                                Err(_) => {
                                    assert(false);
                                },
                            }
                        }
                    },
                }
            },
            _ => {
                assert(false);
            },
        }
        i = i + 1;
    }
}

// The upsert query proper.

/// The checks an upsert passes before its row is read: a clause whose target
/// is exactly the primary key, and a `VALUES` source of exactly one row. The
/// result is that row, or the error kind and message.
pub open spec fn upsert_check(t: Table, source: InsertSource, clause: Option<UpsertClause>) -> Result<Seq<Expr>, (ErrorKind, Seq<char>)> {
    match clause {
        None => Err((ErrorKind::InvalidStatement, "upsert operation without clause"@)),
        Some(c) => match c.target {
            None => Err((ErrorKind::InvalidStatement, "SurrealDB upsert target was not lowered to columns"@)),
            Some(target) => if target@ != t.primary_key@ {
                Err((ErrorKind::UnsupportedFeature, "SurrealDB upsert only supports targeting the primary key"@))
            } else {
                match source {
                    InsertSource::Other(_) => Err((ErrorKind::InvalidStatement, "SurrealDB upsert requires a VALUES source"@)),
                    InsertSource::Values(rows) => if rows@.len() != 1 {
                        Err((ErrorKind::InvalidStatement, "SurrealDB upsert requires exactly one row"@))
                    } else {
                        Ok(rows@[0]@)
                    },
                }
            },
        },
    }
}

/// Why an upsert cannot be built, if it cannot, in the order it is checked:
/// the clause and source, the row, the returning projection, and (for
/// create-or-update) the shared mutations.
pub open spec fn upsert_error(
    t: Table,
    cols: Seq<ColumnId>,
    source: InsertSource,
    clause: Option<UpsertClause>,
    ret: Option<Returning>,
) -> Option<ErrorKind> {
    match upsert_check(t, source, clause) {
        Err((k, _)) => Some(k),
        Ok(row) => match row_error(t, cols, row) {
            Some(k) => Some(k),
            None => if ret matches Some(x) && returning_plan(t, x, "upsert"@) is Err {
                Some(ErrorKind::InvalidStatement)
            } else if clause->0.action == UpsertAction::Update {
                first_shared_error(t, clause->0.shared@, clause->0.defaults@, clause->0.shared@.len() as int)
            } else {
                None
            },
        },
    }
}

/// The message of an upsert that cannot be built, from the same check that
/// `upsert_error` reports the kind of.
pub open spec fn upsert_fault(
    t: Table,
    cols: Seq<ColumnId>,
    source: InsertSource,
    clause: Option<UpsertClause>,
    ret: Option<Returning>,
) -> Seq<char> {
    match upsert_check(t, source, clause) {
        Err((_, m)) => m,
        Ok(row) => if row_error(t, cols, row) is Some {
            row_message(t, cols, row, "upsert"@)
        } else {
            match ret {
                Some(x) => match returning_plan(t, x, "upsert"@) {
                    Err(m) => m,
                    Ok(_) => first_shared_fault(t, clause->0.shared@, clause->0.defaults@, clause->0.shared@.len() as int),
                },
                None => first_shared_fault(t, clause->0.shared@, clause->0.defaults@, clause->0.shared@.len() as int),
            }
        },
    }
}

/// The text of a create-or-update upsert: `SET` items that behave on both
/// branches (create-only values, then shared mutations), or a `MERGE` of the
/// content when there is nothing to set.
pub open spec fn upsert_update_sql(t: Table, cols: Seq<ColumnId>, row: Seq<Expr>, shared: Seq<(ColumnId, Assignment)>, returning: bool) -> Seq<char> {
    let plan = create_only_plan(t, cols, row, shared, cols.len() as int);
    let sets = create_only_texts(plan) + shared_texts(t, shared, plan.len());
    "UPSERT $rid "@ + (if sets.len() == 0 {
        "MERGE "@ + placeholder(0)
    } else {
        "SET "@ + spec_join(sets, ", "@)
    }) + (if returning {
        " RETURN AFTER"@
    } else {
        Seq::empty()
    })
}

/// The parameters of a create-or-update upsert after its record id: the
/// create-only values, the shared mutations' defaults and operands, and the
/// content object when there is nothing to set.
pub open spec fn upsert_update_binds(
    t: Table,
    cols: Seq<ColumnId>,
    row: Seq<Expr>,
    shared: Seq<(ColumnId, Assignment)>,
    defaults: Seq<(ColumnId, Assignment)>,
    binds: Seq<(String, SurValue)>,
) -> bool {
    let plan = create_only_plan(t, cols, row, shared, cols.len() as int);
    let total = plan.len() + shared_params_before(shared, shared.len() as int);
    &&& create_only_binds(plan, binds)
    &&& shared_binds(t, shared, defaults, plan.len(), binds)
    &&& if plan.len() + shared.len() == 0 {
        &&& binds.len() == 1
        &&& binds[0].0@ == "p0"@
        &&& binds[0].1 matches SurValue::Object(content) && content_encodes(content_plan(t, cols, row, cols.len() as int), content@)
    } else {
        binds.len() == total
    }
}

/// Validates an upsert's clause and source, returning its single row.
fn upsert_row<'a>(table: &Table, source: &'a InsertSource, clause: &Option<UpsertClause>) -> (r: Result<&'a Vec<Expr>, DriverError>)
    ensures
        match upsert_check(*table, *source, *clause) {
            Ok(row) => r matches Ok(v) && v@ == row,
            Err((k, m)) => r matches Err(e) && e.kind == k && e.message@ == m,
        },
{
    let c = match clause {
        None => return Err(DriverError::new(ErrorKind::InvalidStatement, "upsert operation without clause")),
        Some(c) => c,
    };
    let target = match &c.target {
        None => return Err(DriverError::new(ErrorKind::InvalidStatement, "SurrealDB upsert target was not lowered to columns")),
        Some(t) => t,
    };
    let mut same = target.len() == table.primary_key.len();
    if same {
        let n = target.len();
        let mut i: usize = 0;
        while i < n
            invariant
                n == target@.len(),
                n == table.primary_key@.len(),
                i <= n,
                same == (forall|j: int| 0 <= j < i ==> target@[j] == table.primary_key@[j]),
            decreases n - i,
        {
            if target[i] != table.primary_key[i] {
                same = false;
            }
            i = i + 1;
        }
        if same {
            assert(target@ =~= table.primary_key@);
        }
    }
    if !same {
        return Err(DriverError::new(ErrorKind::UnsupportedFeature, "SurrealDB upsert only supports targeting the primary key"));
    }
    match source {
        InsertSource::Other(_) => Err(DriverError::new(ErrorKind::InvalidStatement, "SurrealDB upsert requires a VALUES source")),
        InsertSource::Values(rows) => {
            if rows.len() != 1 {
                Err(DriverError::new(ErrorKind::InvalidStatement, "SurrealDB upsert requires exactly one row"))
            } else {
                Ok(&rows[0])
            }
        },
    }
}

/// The record id parameter of a row's key parts.
pub open spec fn rid_from_parts(t: Table, cols: Seq<ColumnId>, row: Seq<Expr>, b: (String, SurValue)) -> bool {
    &&& b.0@ == "rid"@
    &&& b.1 matches SurValue::RecordId(rid) && rid.table@ == t.name@ && builds_key_from_parts(
        pk_parts(t, cols, row),
        t.primary_key@.len(),
        rid.key,
    )
}

/// Builds an upsert of one row keyed by its primary key: a native `UPSERT`
/// for create-or-update, a `CREATE` whose duplicate error the caller
/// swallows for insert-or-ignore. Also resolves the columns to return.
#[verifier::rlimit(100)]
#[verifier::spinoff_prover]
pub fn upsert_query(
    table: &Table,
    columns: &Vec<ColumnId>,
    source: &InsertSource,
    clause: &Option<UpsertClause>,
    returning: &Option<Returning>,
) -> (r: Result<(Query, Option<Vec<ColumnId>>), DriverError>)
    requires
        columns_valid(*table, columns@),
        returning_valid(*table, *returning),
        *clause matches Some(c) ==> targets_valid(*table, c.shared@),
    ensures
        r is Ok <==> upsert_error(*table, columns@, *source, *clause, *returning) is None,
        r matches Err(e) ==> upsert_error(*table, columns@, *source, *clause, *returning) == Some(e.kind)
            && e.message@ == upsert_fault(*table, columns@, *source, *clause, *returning),
        match upsert_check(*table, *source, *clause) {
            Err((_, m)) => r matches Err(e) && e.message@ == m,
            Ok(row) => match first_row_error(*table, columns@, row, columns@.len() as int) {
                Some((p, k)) => k == ErrorKind::InvalidStatement ==> (r matches Err(e) && e.message@
                    == literal_message("upsert"@, p as nat)),
                None => true,
            },
        },
        r matches Ok((q, cols)) ==> match upsert_check(*table, *source, *clause) {
            Ok(row) => {
                &&& match *returning {
                    None => cols is None,
                    Some(x) => match returning_plan(*table, x, "upsert"@) {
                        Ok(plan) => cols matches Some(v) && v@ == plan,
                        Err(_) => false,
                    },
                }
                &&& q.binds@.len() > 0
                &&& rid_from_parts(*table, columns@, row, q.binds@[0])
                &&& if clause->0.action == UpsertAction::Ignore {
                    q.sql@ == create_sql(*returning is Some) && create_binds(*table, columns@, row, q.binds@)
                } else {
                    &&& q.sql@ == upsert_update_sql(*table, columns@, row, clause->0.shared@, *returning is Some)
                    &&& upsert_update_binds(
                        *table,
                        columns@,
                        row,
                        clause->0.shared@,
                        clause->0.defaults@,
                        q.binds@.drop_first(),
                    )
                }
            },
            Err(_) => false,
        },
{
    let row = upsert_row(table, source, clause)?;
    let (rid, content) = split_row(table, columns, row, "upsert")?;
    let ret_cols = returning_columns(table, returning, "upsert")?;
    let c = match clause {
        Some(c) => c,
        None => {
            assert(false);
            return Err(DriverError::new(ErrorKind::InvalidStatement, "upsert operation without clause"));
        },
    };
    let want_return = match returning {
        Some(_) => true,
        None => false,
    };
    match c.action {
        UpsertAction::Ignore => {
            let mut sql = String::new();
            sql.append("CREATE $rid CONTENT $data");
            if want_return {
                sql.append(" RETURN AFTER");
            }
            let mut binds: Vec<(String, SurValue)> = Vec::new();
            binds.push((String::from_str("rid"), SurValue::RecordId(rid)));
            binds.push((String::from_str("data"), SurValue::Object(content)));
            assert(sql@ =~= create_sql(want_return));
            Ok((Query { sql, binds }, ret_cols))
        },
        UpsertAction::Update => {
            let mut binds = Binds::new();
            let mut sets: Vec<String> = Vec::new();
            render_create_only(table, columns, row, &c.shared, &mut binds, &mut sets);
            let ghost plan = create_only_plan(*table, columns@, row@, c.shared@, columns@.len() as int);
            let ghost after_create = binds.values@;
            render_shared(table, &mut binds, &c.shared, &c.defaults, &mut sets)?;
            let ghost after_shared = binds.values@;
            let mut sql = String::new();
            sql.append("UPSERT $rid ");
            if sets.len() == 0 {
                proof {
                    assert(views(sets@).len() == 0);
                    assert(plan.len() == 0);
                    assert(c.shared@.len() == 0);
                    assert(after_shared.len() == 0);
                }
                let ph = binds.push(SurValue::Object(content));
                proof {
                    assert(ph@ =~= placeholder(0));
                    reveal_strlit("p0");
                    reveal_strlit("p");
                    assert(spec_decimal(0) =~= seq!['0']);
                    assert(binds.values@[0].0@ =~= "p0"@);
                    assert(binds.values@[0].1 == SurValue::Object(content));
                }
                sql.append("MERGE ");
                sql.append(ph.as_str());
            } else {
                sql.append("SET ");
                push_joined(&mut sql, &sets, ", ");
            }
            if want_return {
                sql.append(" RETURN AFTER");
            }
            assert(sql@ =~= upsert_update_sql(*table, columns@, row@, c.shared@, want_return));
            let mut all: Vec<(String, SurValue)> = Vec::new();
            all.push((String::from_str("rid"), SurValue::RecordId(rid)));
            let mut rest = binds.into_vec();
            let ghost rv = rest@;
            all.append(&mut rest);
            proof {
                assert(all@.drop_first() =~= rv);
                assert(create_only_binds(plan, rv)) by {
                    assert forall|j: int| #![trigger rv[j]] 0 <= j < plan.len() implies rv[j] == after_create[j] by {
                        assert(rv.take(after_create.len() as int)[j] == rv[j]);
                        assert(after_shared.take(after_create.len() as int)[j] == after_shared[j]);
                    }
                }
                assert(shared_binds(*table, c.shared@, c.defaults@, plan.len(), rv)) by {
                    assert forall|i: int|
                        #![trigger c.shared@[i]]
                        0 <= i < c.shared@.len() implies shared_params(
                        *table,
                        c.shared@[i].0,
                        c.shared@[i].1,
                        c.defaults@,
                        plan.len() + shared_params_before(c.shared@, i),
                        rv,
                    ) by {
                        assert(rv.take(after_shared.len() as int) =~= after_shared);
                        lemma_shared_params_prefix(
                            *table,
                            c.shared@[i].0,
                            c.shared@[i].1,
                            c.defaults@,
                            plan.len() + shared_params_before(c.shared@, i),
                            after_shared,
                            rv,
                        );
                    }
                }
            }
            Ok((Query { sql, binds: all }, ret_cols))
        },
    }
}

/// The response of an upsert from the rows it returned: the rows when the
/// upsert returns them, else the number of affected rows, at least one (a
/// create-or-update always touches its row).
pub fn upsert_response(table: &Table, rows: &Vec<SurValue>, returning: &Option<Vec<ColumnId>>) -> (r: Result<ExecResponse, DriverError>)
    requires
        *returning matches Some(cols) ==> cols_valid(*table, cols@),
    ensures
        match *returning {
            None => r matches Ok(ExecResponse::Count(n)) && n == (if rows@.len() == 0 {
                1
            } else {
                rows@.len()
            }),
            Some(cols) => (r is Ok <==> forall|i: int|
                0 <= i < rows@.len() ==> #[trigger] row_decodable(*table, rows@[i], cols@)) && (r matches Ok(resp)
                ==> resp matches ExecResponse::Rows { records, next_cursor } && next_cursor is None
                && records@.len() == rows@.len() && forall|i: int|
                0 <= i < rows@.len() ==> #[trigger] record_decodes(*table, rows@[i], cols@, records@[i]@)),
        },
{
    match returning {
        Some(cols) => {
            let records = rows_to_records(table, rows, cols)?;
            Ok(ExecResponse::Rows { records, next_cursor: None })
        },
        None => {
            let n = if rows.len() == 0 {
                1
            } else {
                rows.len()
            };
            Ok(ExecResponse::Count(n as u64))
        },
    }
}

/// The error of a `CREATE` means the row already exists.
pub open spec fn is_conflict(message: Seq<char>) -> bool {
    spec_contains(message, "already exists"@)
}

/// The outcome of an insert-or-ignore whose `CREATE` failed: a conflict on an
/// existing row is ignored (no rows, or a count of zero); any other error
/// stands.
pub fn ignore_conflict(err: DriverError, returning: bool) -> (r: Result<ExecResponse, DriverError>)
    ensures
        is_conflict(err.message@) ==> (if returning {
            r matches Ok(ExecResponse::Rows { records, next_cursor }) && records@.len() == 0 && next_cursor is None
        } else {
            r matches Ok(ExecResponse::Count(n)) && n == 0
        }),
        !is_conflict(err.message@) ==> r == Err::<ExecResponse, DriverError>(err),
{
    if contains(err.message.as_str(), "already exists") {
        if returning {
            Ok(ExecResponse::Rows { records: Vec::new(), next_cursor: None })
        } else {
            Ok(ExecResponse::Count(0))
        }
    } else {
        Err(err)
    }
}

} // verus!
