//! The key-value operations: `GetByKey`, `DeleteByKey`, `FindPkByIndex`,
//! `QueryPk` and `Scan`, each as a query builder and a response decoder.

use vstd::prelude::*;
use crate::error::{DriverError, ErrorKind};
use crate::expr::{Binds, Expr, Literal, binds_extend, bound, column_ref, plain, refs_valid, render, render_error, render_fault, render_message, render_out, spec_column_ref};
use crate::op::{Direction, ExecResponse, Pagination, Query, cols_valid, keyset_select_query, keyset_sql, project_columns, projection_text, record_decodes, row_decodable, rows_to_records, resume_after, where_clause};
use crate::text::escape_ident;
use crate::record_id::{builds_key, key_error, key_fault, record_id};
use crate::schema::{ColumnId, Table};
use crate::text::{push_decimal, push_escaped_ident_str, push_joined, spec_decimal, spec_escape_ident, spec_join, views};
use crate::value::{SurValue, Value, encodable, encode_fault};

verus! {

// ---------------------------------------------------------------------------
// GetByKey
// ---------------------------------------------------------------------------

/// `$k<i>`, the parameter of the `i`-th key.
pub open spec fn key_param(i: nat) -> Seq<char> {
    "$k"@ + spec_decimal(i)
}

/// `SELECT <projection> FROM $k0, $k1, …`.
pub open spec fn get_by_key_sql(t: Table, n: nat, select: Seq<ColumnId>) -> Seq<char> {
    "SELECT "@ + projection_text(t, select) + " FROM "@ + spec_join(
        Seq::new(n, |i: int| key_param(i as nat)),
        ", "@,
    )
}

/// The first key (in order) that cannot become a record id, if any.
pub open spec fn first_key_error(t: Table, keys: Seq<Value>) -> Option<ErrorKind>
    decreases keys.len(),
{
    if keys.len() == 0 {
        None
    } else {
        match first_key_error(t, keys.drop_last()) {
            Some(e) => Some(e),
            None => key_error(keys.last(), t.primary_key@.len()),
        }
    }
}

/// The message of the first key that cannot become a record key.
pub open spec fn first_key_message(t: Table, keys: Seq<Value>) -> Seq<char>
    decreases keys.len(),
{
    if keys.len() == 0 {
        Seq::empty()
    } else if first_key_error(t, keys.drop_last()) is Some {
        first_key_message(t, keys.drop_last())
    } else {
        key_fault(keys.last(), t.primary_key@.len())
    }
}

/// Selects the rows with the given primary keys, each bound as a record id
/// parameter `$k<i>`. No query is needed for no keys.
#[verifier::spinoff_prover]
pub fn get_by_key_query(table: &Table, keys: &Vec<Value>, select: &Vec<ColumnId>) -> (r: Result<Option<Query>, DriverError>)
    requires
        cols_valid(*table, select@),
    ensures
        r is Ok <==> first_key_error(*table, keys@) is None,
        r matches Err(e) ==> first_key_error(*table, keys@) == Some(e.kind) && e.message@ == first_key_message(
            *table,
            keys@,
        ),
        r matches Ok(q) ==> (keys@.len() == 0 <==> q is None),
        r matches Ok(Some(q)) ==> q.sql@ == get_by_key_sql(*table, keys@.len(), select@) && q.binds@.len()
            == keys@.len() && forall|i: int|
            #![trigger q.binds@[i]]
            0 <= i < keys@.len() ==> {
                &&& q.binds@[i].0@ == "k"@ + spec_decimal(i as nat)
                &&& q.binds@[i].1 matches SurValue::RecordId(rid) && rid.table@ == table.name@
                    && builds_key(keys@[i], table.primary_key@.len(), rid.key)
            },
{
    if keys.len() == 0 {
        return Ok(None);
    }
    let mut binds: Vec<(String, SurValue)> = Vec::new();
    let mut targets: Vec<String> = Vec::new();
    let n = keys.len();
    let mut i: usize = 0;
    while i < n
        invariant
            n == keys@.len(),
            i <= n,
            binds@.len() == i,
            views(targets@) == Seq::new(i as nat, |j: int| key_param(j as nat)),
            first_key_error(*table, keys@.take(i as int)) is None,
            forall|j: int|
                #![trigger binds@[j]]
                0 <= j < i ==> {
                    &&& binds@[j].0@ == "k"@ + spec_decimal(j as nat)
                    &&& binds@[j].1 matches SurValue::RecordId(rid) && rid.table@ == table.name@
                        && builds_key(keys@[j], table.primary_key@.len(), rid.key)
                },
        decreases n - i,
    {
        assert(keys@.take(i + 1).drop_last() =~= keys@.take(i as int));
        let rid = match record_id(table, &keys[i]) {
            Ok(rid) => rid,
            Err(e) => {
                proof {
                    assert(keys@.take(i + 1).last() == keys@[i as int]);
                    lemma_first_key_error_extends(*table, keys@, i as int + 1, n as int);
                    assert(keys@.take(n as int) =~= keys@);
                }
                return Err(e);
            },
        };
        let mut name = String::new();
        name.append("k");
        push_decimal(&mut name, i as u64);
        let mut target = String::new();
        target.append("$k");
        push_decimal(&mut target, i as u64);
        let ghost before = targets@;
        let ghost tv = target@;
        assert(tv =~= key_param(i as nat));
        targets.push(target);
        assert(views(targets@) =~= views(before).push(tv));
        assert(Seq::new((i + 1) as nat, |j: int| key_param(j as nat)) =~= Seq::new(i as nat, |j: int| key_param(j as nat)).push(tv));
        binds.push((name, SurValue::RecordId(rid)));
        i = i + 1;
    }
    assert(keys@.take(n as int) =~= keys@);
    let mut sql = String::new();
    sql.append("SELECT ");
    sql.append(project_columns(table, select).as_str());
    sql.append(" FROM ");
    push_joined(&mut sql, &targets, ", ");
    assert(sql@ =~= get_by_key_sql(*table, keys@.len(), select@));
    Ok(Some(Query { sql, binds }))
}

proof fn lemma_first_key_error_extends(t: Table, keys: Seq<Value>, i: int, n: int)
    requires
        0 < i <= n <= keys.len(),
        first_key_error(t, keys.take(i)) is Some,
    ensures
        first_key_error(t, keys.take(n)) == first_key_error(t, keys.take(i)),
        first_key_message(t, keys.take(n)) == first_key_message(t, keys.take(i)),
    decreases n - i,
{
    if i < n {
        assert(keys.take(i + 1).drop_last() =~= keys.take(i));
        lemma_first_key_error_extends(t, keys, i + 1, n);
    }
}

// ---------------------------------------------------------------------------
// DeleteByKey
// ---------------------------------------------------------------------------

/// The rendered filter and condition, each numbered after the binds before it
/// (the first after `k` earlier parameters).
pub open spec fn guard_predicates(t: Table, filter: Option<Expr>, condition: Option<Expr>, k: nat) -> Option<Seq<Seq<char>>> {
    let f: Option<Option<Seq<char>>> = match filter {
        Some(e) => match render_out(t, e, k) {
            Some(x) => Some(Some(x)),
            None => None,
        },
        None => Some(None),
    };
    let kf: nat = match filter {
        Some(e) => k + bound(t, e).len(),
        None => k,
    };
    let c: Option<Option<Seq<char>>> = match condition {
        Some(e) => match render_out(t, e, kf) {
            Some(x) => Some(Some(x)),
            None => None,
        },
        None => Some(None),
    };
    match (f, c) {
        (Some(fo), Some(co)) => Some(
            (match fo {
                Some(x) => seq![x],
                None => Seq::empty(),
            }) + (match co {
                Some(x) => seq![x],
                None => Seq::empty(),
            }),
        ),
        _ => None,
    }
}

/// The kind of error reported when `guard_predicates` is `None`: that of the
/// filter when it fails, else that of the condition.
#[verifier::opaque]
pub open spec fn guard_fault(t: Table, filter: Option<Expr>, condition: Option<Expr>, k: nat) -> ErrorKind {
    let kf: nat = match filter {
        Some(e) => k + bound(t, e).len(),
        None => k,
    };
    let condition_fault = match condition {
        Some(e) => render_fault(t, e, kf),
        None => ErrorKind::UnsupportedFeature,
    };
    match filter {
        Some(e) => if render_out(t, e, k) is None {
            render_fault(t, e, k)
        } else {
            condition_fault
        },
        None => condition_fault,
    }
}

/// The message of the error reported when `guard_predicates` is `None`: that
/// of the filter when it fails, else that of the condition.
#[verifier::opaque]
pub open spec fn guard_message(t: Table, filter: Option<Expr>, condition: Option<Expr>, k: nat) -> Seq<char> {
    let kf: nat = match filter {
        Some(e) => k + bound(t, e).len(),
        None => k,
    };
    let condition_message = match condition {
        Some(e) => render_message(t, e, kf),
        None => Seq::empty(),
    };
    match filter {
        Some(e) => if render_out(t, e, k) is None {
            render_message(t, e, k)
        } else {
            condition_message
        },
        None => condition_message,
    }
}

/// The literals an optional expression binds.
pub open spec fn opt_bound(t: Table, e: Option<Expr>) -> Seq<Literal> {
    match e {
        Some(x) => bound(t, x),
        None => Seq::empty(),
    }
}

/// The literals the filter and then the condition bind.
pub open spec fn guard_bound(t: Table, filter: Option<Expr>, condition: Option<Expr>) -> Seq<Literal> {
    opt_bound(t, filter) + opt_bound(t, condition)
}

/// Renders the filter and the condition of a keyed write.
pub fn render_guards(table: &Table, binds: &mut Binds, filter: &Option<Expr>, condition: &Option<Expr>) -> (r: Result<Vec<String>, DriverError>)
    requires
        *filter matches Some(e) ==> refs_valid(*table, e),
        *condition matches Some(e) ==> refs_valid(*table, e),
    ensures
        r is Ok <==> guard_predicates(*table, *filter, *condition, old(binds).values@.len()) is Some,
        r matches Ok(preds) ==> Some(views(preds@)) == guard_predicates(*table, *filter, *condition, old(binds).values@.len())
            && binds_extend(old(binds).values@, final(binds).values@, guard_bound(*table, *filter, *condition)),
        r matches Err(e) ==> render_error(e.kind) && e.kind == guard_fault(*table, *filter, *condition, old(binds).values@.len())
            && e.message@ == guard_message(*table, *filter, *condition, old(binds).values@.len()),
{
    reveal(guard_fault);
    reveal(guard_message);
    let ghost start = binds.values@;
    let mut predicates: Vec<String> = Vec::new();
    proof {
        crate::expr::lemma_binds_extend_refl_pub(start);
    }
    match filter {
        Some(f) => {
            let text = render(table, binds, f)?;
            predicates.push(text);
        },
        None => {},
    }
    let ghost mid = binds.values@;
    match condition {
        Some(c) => {
            let text = render(table, binds, c)?;
            predicates.push(text);
        },
        None => {
            proof {
                crate::expr::lemma_binds_extend_refl_pub(mid);
            }
        },
    }
    proof {
        let vf = opt_bound(*table, *filter);
        let vc = opt_bound(*table, *condition);
        crate::expr::lemma_binds_extend_trans_pub(start, mid, binds.values@, vf, vc);
        assert(views(predicates@) =~= guard_predicates(*table, *filter, *condition, start.len())->0);
    }
    Ok(predicates)
}

/// `DELETE $rid[ WHERE …] RETURN BEFORE`.
pub open spec fn delete_sql(preds: Seq<Seq<char>>) -> Seq<char> {
    "DELETE $rid"@ + where_clause(preds) + " RETURN BEFORE"@
}

/// The message for a keyed write that did not get exactly one key.
pub open spec fn key_count_message(verb: Seq<char>, n: nat) -> Seq<char> {
    "SurrealDB "@ + verb + " expects exactly one key, got "@ + spec_decimal(n)
}

pub fn key_count_error(verb: &str, n: usize) -> (e: DriverError)
    ensures
        e.kind == ErrorKind::InvalidStatement,
        e.message@ == key_count_message(verb@, n as nat),
{
    let mut message = String::new();
    message.append("SurrealDB ");
    message.append(verb);
    message.append(" expects exactly one key, got ");
    push_decimal(&mut message, n as u64);
    assert(message@ =~= key_count_message(verb@, n as nat));
    DriverError { kind: ErrorKind::InvalidStatement, message }
}

/// Deletes the row with the given key when the filter and condition hold,
/// returning the deleted row so what was deleted can be counted. The engine
/// sends one key per delete.
#[verifier::spinoff_prover]
#[verifier::rlimit(30)]
pub fn delete_by_key_query(table: &Table, keys: &Vec<Value>, filter: &Option<Expr>, condition: &Option<Expr>) -> (r: Result<Query, DriverError>)
    requires
        *filter matches Some(e) ==> refs_valid(*table, e),
        *condition matches Some(e) ==> refs_valid(*table, e),
    ensures
        keys@.len() != 1 ==> (r matches Err(e) && e.kind == ErrorKind::InvalidStatement && e.message@
            == key_count_message("delete"@, keys@.len())),
        keys@.len() == 1 ==> (r is Ok <==> guard_predicates(*table, *filter, *condition, 0) is Some
            && key_error(keys@[0], table.primary_key@.len()) is None),
        r matches Ok(q) ==> (match guard_predicates(*table, *filter, *condition, 0) {
            Some(preds) => q.sql@ == delete_sql(preds),
            None => false,
        }) && binds_extend(Seq::empty(), q.binds@.drop_last(), guard_bound(*table, *filter, *condition))
            && q.binds@.len() > 0 && q.binds@.last().0@ == "rid"@ && (q.binds@.last().1 matches SurValue::RecordId(rid)
            && rid.table@ == table.name@ && builds_key(keys@[0], table.primary_key@.len(), rid.key)),
        r matches Err(e) ==> keys@.len() != 1 || e.kind == (if guard_predicates(*table, *filter, *condition, 0) is None {
            guard_fault(*table, *filter, *condition, 0)
        } else {
            key_error(keys@[0], table.primary_key@.len())->0
        }) && e.message@ == (if guard_predicates(*table, *filter, *condition, 0) is None {
            guard_message(*table, *filter, *condition, 0)
        } else {
            key_fault(keys@[0], table.primary_key@.len())
        }),
{
    if keys.len() != 1 {
        return Err(key_count_error("delete", keys.len()));
    }
    let mut binds = Binds::new();
    assert(binds.values@ =~= Seq::<(String, SurValue)>::empty());
    let predicates = match render_guards(table, &mut binds, filter, condition) {
        Ok(p) => p,
        Err(e) => {
            return Err(e);
        },
    };
    let ghost guards = binds.values@;
    let rid = match record_id(table, &keys[0]) {
        Ok(rid) => rid,
        Err(e) => {
            assert(guard_predicates(*table, *filter, *condition, 0) is Some);
            return Err(e);
        },
    };
    let ghost rv = rid;
    binds.push_named("rid", SurValue::RecordId(rid));
    assert(binds.values@.last().1 == SurValue::RecordId(rv));
    let mut sql = String::new();
    sql.append("DELETE $rid");
    if predicates.len() > 0 {
        sql.append(" WHERE ");
        push_joined(&mut sql, &predicates, " AND ");
    }
    sql.append(" RETURN BEFORE");
    assert(sql@ =~= delete_sql(views(predicates@)));
    let q = Query { sql, binds: binds.into_vec() };
    assert(q.binds@.drop_last() =~= guards);
    Ok(q)
}

/// The response of a keyed delete: the number of deleted rows; a conditional
/// delete that deleted nothing failed its condition.
pub fn delete_response(rows: &Vec<SurValue>, has_condition: bool) -> (r: Result<ExecResponse, DriverError>)
    ensures
        rows@.len() == 0 && has_condition ==> (r matches Err(e) && e.kind == ErrorKind::ConditionFailed
            && e.message@ == "SurrealDB delete condition did not match"@),
        !(rows@.len() == 0 && has_condition) ==> (r matches Ok(ExecResponse::Count(n)) && n == rows@.len()),
{
    if rows.len() == 0 && has_condition {
        return Err(DriverError::new(ErrorKind::ConditionFailed, "SurrealDB delete condition did not match"));
    }
    Ok(ExecResponse::Count(rows.len() as u64))
}

// ---------------------------------------------------------------------------
// GetByKey / FindPkByIndex responses
// ---------------------------------------------------------------------------

/// The rows of a keyed select, each decoded into the selected columns.
pub fn rows_response(table: &Table, rows: &Vec<SurValue>, select: &Vec<ColumnId>) -> (r: Result<ExecResponse, DriverError>)
    requires
        cols_valid(*table, select@),
    ensures
        r is Ok <==> forall|i: int| 0 <= i < rows@.len() ==> #[trigger] row_decodable(*table, rows@[i], select@),
        r matches Ok(resp) ==> resp matches ExecResponse::Rows { records, next_cursor } && next_cursor is None
            && records@.len() == rows@.len() && forall|i: int|
            0 <= i < rows@.len() ==> #[trigger] record_decodes(*table, rows@[i], select@, records@[i]@),
{
    let records = rows_to_records(table, rows, select)?;
    Ok(ExecResponse::Rows { records, next_cursor: None })
}

// ---------------------------------------------------------------------------
// FindPkByIndex
// ---------------------------------------------------------------------------

/// `SELECT <primary-key projection> FROM <table> WHERE <predicate>`.
pub open spec fn find_pk_by_index_sql(t: Table, predicate: Seq<char>) -> Seq<char> {
    "SELECT "@ + projection_text(t, t.primary_key@) + " FROM "@ + spec_escape_ident(t.name@) + " WHERE "@
        + predicate
}

/// Selects the primary keys of the rows an index filter matches, so the
/// engine can follow up with a `GetByKey`.
pub fn find_pk_by_index_query(table: &Table, filter: &Expr) -> (r: Result<Query, DriverError>)
    requires
        table.wf(),
        refs_valid(*table, *filter),
    ensures
        r is Ok <==> render_out(*table, *filter, 0) is Some,
        r matches Ok(q) ==> q.sql@ == find_pk_by_index_sql(*table, render_out(*table, *filter, 0)->0)
            && binds_extend(Seq::empty(), q.binds@, bound(*table, *filter)),
        r matches Err(e) ==> render_error(e.kind) && e.kind == render_fault(*table, *filter, 0) && e.message@
            == render_message(*table, *filter, 0),
{
    let mut binds = Binds::new();
    assert(binds.values@ =~= Seq::<(String, SurValue)>::empty());
    let predicate = render(table, &mut binds, filter)?;
    let mut sql = String::new();
    sql.append("SELECT ");
    sql.append(project_columns(table, &table.primary_key).as_str());
    sql.append(" FROM ");
    push_escaped_ident_str(&mut sql, table.name.as_str());
    sql.append(" WHERE ");
    sql.append(predicate.as_str());
    assert(sql@ =~= find_pk_by_index_sql(*table, predicate@));
    Ok(Query { sql, binds: binds.into_vec() })
}

/// The primary keys a `FindPkByIndex` query returned, one record per row.
pub fn find_pk_by_index_response(table: &Table, rows: &Vec<SurValue>) -> (r: Result<ExecResponse, DriverError>)
    requires
        table.wf(),
    ensures
        r is Ok <==> forall|i: int|
            0 <= i < rows@.len() ==> #[trigger] row_decodable(*table, rows@[i], table.primary_key@),
        r matches Ok(resp) ==> resp matches ExecResponse::Rows { records, next_cursor } && next_cursor is None
            && records@.len() == rows@.len() && forall|i: int|
            0 <= i < rows@.len() ==> #[trigger] record_decodes(*table, rows@[i], table.primary_key@, records@[i]@),
{
    rows_response(table, rows, &table.primary_key)
}

// ---------------------------------------------------------------------------
// QueryPk and Scan
// ---------------------------------------------------------------------------

/// The sort key of keyset pagination: the last primary-key column (the
/// "local"/range key), or the record id itself for a table without one.
pub open spec fn sort_ref_text(t: Table) -> Seq<char> {
    if t.primary_key@.len() > 0 {
        spec_column_ref(t, t.primary_key@.last())
    } else {
        "id"@
    }
}

fn sort_ref(table: &Table) -> (r: String)
    requires
        table.wf(),
    ensures
        r@ == sort_ref_text(*table),
{
    let n = table.primary_key.len();
    if n > 0 {
        column_ref(table, table.primary_key[n - 1])
    } else {
        let mut out = String::new();
        out.append("id");
        out
    }
}

/// The predicate of a `QueryPk`: the primary-key filter, ANDed with the
/// post-filter when there is one.
pub open spec fn query_pk_predicate(t: Table, pk_filter: Expr, filter: Option<Expr>) -> Option<Seq<char>> {
    match render_out(t, pk_filter, 0) {
        None => None,
        Some(p) => match filter {
            None => Some(p),
            Some(f) => match render_out(t, f, bound(t, pk_filter).len()) {
                Some(e) => Some("("@ + p + ") AND ("@ + e + ")"@),
                None => None,
            },
        },
    }
}

/// The values a keyset query binds after its predicate: the resume cursor,
/// if any.
pub open spec fn resume_bound(limit: Option<Pagination>) -> Seq<Literal> {
    match resume_after(limit) {
        Some(c) => seq![plain(c)],
        None => Seq::empty(),
    }
}

/// Selects rows by a primary-key filter (and optional post-filter), ordered
/// and paginated on the sort key.
#[verifier::spinoff_prover]
pub fn query_pk_query(
    table: &Table,
    pk_filter: &Expr,
    filter: &Option<Expr>,
    select: &Vec<ColumnId>,
    order: Option<Direction>,
    limit: &Option<Pagination>,
) -> (r: Result<Query, DriverError>)
    requires
        table.wf(),
        cols_valid(*table, select@),
        refs_valid(*table, *pk_filter),
        *filter matches Some(e) ==> refs_valid(*table, e),
    ensures
        r is Ok <==> query_pk_predicate(*table, *pk_filter, *filter) is Some && (resume_after(*limit) matches Some(
            c,
        ) ==> encodable(c)),
        r matches Ok(q) ==> q.sql@ == keyset_sql(
            spec_escape_ident(table.name@),
            projection_text(*table, select@),
            query_pk_predicate(*table, *pk_filter, *filter),
            sort_ref_text(*table),
            table.primary_key@.len() > 0,
            order,
            *limit,
            bound(*table, *pk_filter).len() + opt_bound(*table, *filter).len(),
        ) && binds_extend(Seq::empty(), q.binds@, bound(*table, *pk_filter) + opt_bound(*table, *filter) + resume_bound(*limit)),
        r matches Err(e) ==> render_error(e.kind) && e.kind == (if render_out(*table, *pk_filter, 0) is None {
            render_fault(*table, *pk_filter, 0)
        } else if query_pk_predicate(*table, *pk_filter, *filter) is None {
            render_fault(*table, filter->0, bound(*table, *pk_filter).len())
        } else {
            ErrorKind::UnsupportedFeature
        }) && e.message@ == (if render_out(*table, *pk_filter, 0) is None {
            render_message(*table, *pk_filter, 0)
        } else if query_pk_predicate(*table, *pk_filter, *filter) is None {
            render_message(*table, filter->0, bound(*table, *pk_filter).len())
        } else {
            encode_fault(resume_after(*limit)->0)
        }),
{
    let mut binds = Binds::new();
    let ghost start = binds.values@;
    assert(start =~= Seq::<(String, SurValue)>::empty());
    let mut predicate = render(table, &mut binds, pk_filter)?;
    let ghost mid = binds.values@;
    match filter {
        Some(f) => {
            let extra = render(table, &mut binds, f)?;
            let mut combined = String::new();
            combined.append("(");
            combined.append(predicate.as_str());
            combined.append(") AND (");
            combined.append(extra.as_str());
            combined.append(")");
            predicate = combined;
            proof {
                crate::expr::lemma_binds_extend_trans_pub(start, mid, binds.values@, bound(*table, *pk_filter), bound(*table, *f));
            }
        },
        None => {
            proof {
                crate::expr::lemma_binds_extend_refl_pub(mid);
                crate::expr::lemma_binds_extend_trans_pub(start, mid, binds.values@, bound(*table, *pk_filter), Seq::empty());
            }
        },
    }
    let ghost pre = binds.values@;
    assert(Some(predicate@) == query_pk_predicate(*table, *pk_filter, *filter));
    let table_name = escape_ident(table.name.as_str());
    let projection = project_columns(table, select);
    let sort = sort_ref(table);
    let has_sort = table.primary_key.len() > 0;
    let q = keyset_select_query(
        table_name.as_str(),
        projection.as_str(),
        Some(predicate),
        sort.as_str(),
        has_sort,
        order,
        limit,
        binds,
    )?;
    proof {
        crate::expr::lemma_binds_extend_trans_pub(
            start,
            pre,
            q.binds@,
            bound(*table, *pk_filter) + opt_bound(*table, *filter),
            resume_bound(*limit),
        );
    }
    Ok(q)
}

/// The columns a scan selects, given as positions in the table.
pub open spec fn scan_columns(t: Table, columns: Seq<usize>) -> Seq<ColumnId> {
    columns.map_values(|i: usize| ColumnId { table: t.id, index: i })
}

/// Selects every row (optionally filtered), paginated on the sort key. A
/// scan requests no order; cursor pagination still resumes ascending.
#[verifier::spinoff_prover]
pub fn scan_query(table: &Table, columns: &Vec<usize>, filter: &Option<Expr>, limit: &Option<Pagination>) -> (r: Result<
    (Query, Vec<ColumnId>),
    DriverError,
>)
    requires
        table.wf(),
        forall|k: int| 0 <= k < columns@.len() ==> #[trigger] columns@[k] < table.columns@.len(),
        *filter matches Some(e) ==> refs_valid(*table, e),
    ensures
        r is Ok <==> (*filter matches Some(e) ==> render_out(*table, e, 0) is Some) && (resume_after(
            *limit,
        ) matches Some(c) ==> encodable(c)),
        r matches Ok((q, select)) ==> select@ == scan_columns(*table, columns@) && q.sql@ == keyset_sql(
            spec_escape_ident(table.name@),
            projection_text(*table, select@),
            match *filter {
                Some(e) => render_out(*table, e, 0),
                None => None,
            },
            sort_ref_text(*table),
            table.primary_key@.len() > 0,
            None,
            *limit,
            opt_bound(*table, *filter).len(),
        ) && binds_extend(Seq::empty(), q.binds@, opt_bound(*table, *filter) + resume_bound(*limit)),
        r matches Err(e) ==> render_error(e.kind) && e.kind == (match *filter {
            Some(f) => if render_out(*table, f, 0) is None {
                render_fault(*table, f, 0)
            } else {
                ErrorKind::UnsupportedFeature
            },
            None => ErrorKind::UnsupportedFeature,
        }) && e.message@ == (match *filter {
            Some(f) => if render_out(*table, f, 0) is None {
                render_message(*table, f, 0)
            } else {
                encode_fault(resume_after(*limit)->0)
            },
            None => encode_fault(resume_after(*limit)->0),
        }),
{
    let mut select: Vec<ColumnId> = Vec::new();
    let n = columns.len();
    let mut i: usize = 0;
    while i < n
        invariant
            n == columns@.len(),
            i <= n,
            select@ == scan_columns(*table, columns@.take(i as int)),
        decreases n - i,
    {
        select.push(ColumnId { table: table.id, index: columns[i] });
        proof {
            assert(columns@.take(i + 1) =~= columns@.take(i as int).push(columns@[i as int]));
            assert(select@ =~= scan_columns(*table, columns@.take(i + 1)));
        }
        i = i + 1;
    }
    assert(columns@.take(n as int) =~= columns@);
    let mut binds = Binds::new();
    let ghost start = binds.values@;
    assert(start =~= Seq::<(String, SurValue)>::empty());
    let predicate: Option<String> = match filter {
        Some(f) => {
            let text = render(table, &mut binds, f)?;
            Some(text)
        },
        None => {
            proof {
                crate::expr::lemma_binds_extend_refl_pub(start);
            }
            None
        },
    };
    let ghost pre = binds.values@;
    let ghost pred_view: Option<Seq<char>> = match &predicate {
        Some(p) => Some(p@),
        None => None,
    };
    assert(pred_view == match *filter {
        Some(e) => render_out(*table, e, 0),
        None => None::<Seq<char>>,
    });
    let table_name = escape_ident(table.name.as_str());
    let projection = project_columns(table, &select);
    let sort = sort_ref(table);
    let has_sort = table.primary_key.len() > 0;
    let q = keyset_select_query(
        table_name.as_str(),
        projection.as_str(),
        predicate,
        sort.as_str(),
        has_sort,
        None,
        limit,
        binds,
    )?;
    proof {
        crate::expr::lemma_binds_extend_trans_pub(start, pre, q.binds@, opt_bound(*table, *filter), resume_bound(*limit));
    }
    Ok((q, select))
}

} // verus!
