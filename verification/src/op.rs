//! Translation of Toasty key-value operations into SurrealQL queries, and
//! decoding of their result rows.
//!
//! Each operation is split in two: a function that builds the query text and
//! its bound parameters, and a function that turns the rows the query
//! returned into the operation's response. Running the query is left to the
//! caller.

use vstd::prelude::*;
use crate::error::{DriverError, ErrorKind};
use crate::expr::{Binds, column_ref, spec_column_ref};
use crate::schema::{Column, ColumnId, Table};
use crate::text::{push_decimal, push_escaped_ident_str, push_joined, push_signed_decimal, spec_decimal, spec_escape_ident, spec_join, spec_signed_decimal, views};
use crate::json::{json_decodes, json_issue};
use crate::value::{SurValue, Value, decodable, decodes, encodable, encode_fault, encodes, from_surreal, from_surreal_for_column, to_surreal};
use crate::expr::{binds_extend, placeholder, plain};

verus! {

/// A SurrealQL query: its text and its bound parameters.
#[derive(Debug)]
pub struct Query {
    pub sql: String,
    pub binds: Vec<(String, SurValue)>,
}

/// The response of an operation.
#[derive(Debug)]
pub enum ExecResponse {
    /// The number of rows affected.
    Count(u64),
    /// Decoded rows (one value per selected column) and, for cursor
    /// pagination, the cursor of the next page.
    Rows { records: Vec<Vec<Value>>, next_cursor: Option<Value> },
}

// ---------------------------------------------------------------------------
// Projections and rows
// ---------------------------------------------------------------------------

/// One projection item: a primary-key column is aliased out of the record id
/// (`<ref> AS <name>`) so the decoded row exposes the key as a normal field.
pub open spec fn projection_item(t: Table, id: ColumnId) -> Seq<char> {
    if t.spec_is_primary_key(id) {
        spec_column_ref(t, id) + " AS "@ + spec_escape_ident(t.col(id).name@)
    } else {
        spec_escape_ident(t.col(id).name@)
    }
}

/// The projection over the given columns, or `*` when there are none.
pub open spec fn projection_text(t: Table, cols: Seq<ColumnId>) -> Seq<char> {
    if cols.len() == 0 {
        "*"@
    } else {
        spec_join(cols.map_values(|c: ColumnId| projection_item(t, c)), ", "@)
    }
}

/// All the column ids designate columns of `t`.
pub open spec fn cols_valid(t: Table, cols: Seq<ColumnId>) -> bool {
    forall|k: int| 0 <= k < cols.len() ==> (#[trigger] cols[k]).index < t.columns@.len()
}

/// Whether every column id designates a column of the table.
pub fn cols_ok(table: &Table, cols: &Vec<ColumnId>) -> (r: bool)
    ensures
        r == cols_valid(*table, cols@),
{
    let n = cols.len();
    let mut i: usize = 0;
    while i < n
        invariant
            n == cols@.len(),
            i <= n,
            forall|k: int| 0 <= k < i ==> (#[trigger] cols@[k]).index < table.columns@.len(),
        decreases n - i,
    {
        if cols[i].index >= table.columns.len() {
            return false;
        }
        i = i + 1;
    }
    true
}

/// Renders a projection over the given columns.
pub fn project_columns(table: &Table, select: &Vec<ColumnId>) -> (r: String)
    requires
        cols_valid(*table, select@),
    ensures
        r@ == projection_text(*table, select@),
{
    let mut parts: Vec<String> = Vec::new();
    let n = select.len();
    let mut i: usize = 0;
    while i < n
        invariant
            n == select@.len(),
            i <= n,
            cols_valid(*table, select@),
            views(parts@) == select@.take(i as int).map_values(|c: ColumnId| projection_item(*table, c)),
        decreases n - i,
    {
        let id = select[i];
        assert(select@[i as int].index < table.columns@.len());
        let name = table.columns[id.index].name.as_str();
        let mut item = String::new();
        if table.is_primary_key(id) {
            item = column_ref(table, id);
            item.append(" AS ");
            push_escaped_ident_str(&mut item, name);
        } else {
            push_escaped_ident_str(&mut item, name);
        }
        assert(item@ =~= projection_item(*table, id));
        let ghost before = parts@;
        parts.push(item);
        assert(select@.take(i + 1) =~= select@.take(i as int).push(id));
        assert(views(parts@) =~= views(before).push(item@));
        assert(views(parts@) =~= select@.take(i + 1).map_values(|c: ColumnId| projection_item(*table, c)));
        i = i + 1;
    }
    assert(select@.take(n as int) =~= select@);
    if n == 0 {
        let mut star = String::new();
        star.append("*");
        star
    } else {
        let mut out = String::new();
        push_joined(&mut out, &parts, ", ");
        assert(out@ =~= projection_text(*table, select@));
        out
    }
}

/// The first entry of an object with the given name, from position `i` on.
pub open spec fn entry_from(fs: Seq<(String, SurValue)>, name: Seq<char>, i: int) -> Option<SurValue>
    decreases fs.len() - i,
{
    if i < 0 || i >= fs.len() {
        None
    } else if fs[i].0@ == name {
        Some(fs[i].1)
    } else {
        entry_from(fs, name, i + 1)
    }
}

/// The field of a row with the given name; `NONE` when the row is not an
/// object or has no such field.
pub open spec fn row_field(row: SurValue, name: Seq<char>) -> SurValue {
    match row {
        SurValue::Object(fs) => match entry_from(fs@, name, 0) {
            Some(v) => v,
            None => SurValue::Absent,
        },
        _ => SurValue::Absent,
    }
}

/// A value read from the column decodes without error.
pub open spec fn column_decodable(c: Column, s: SurValue) -> bool {
    if c.storage_ty is Json {
        s is Absent || json_issue(s) is None
    } else {
        decodable(s, c.ty)
    }
}

/// `v` is what a value read from the column decodes to.
pub open spec fn column_decodes(c: Column, s: SurValue, v: Value) -> bool {
    if c.storage_ty is Json {
        if s is Absent {
            v is Null
        } else {
            v matches Value::JsonText(j) && json_decodes(s, j)
        }
    } else {
        decodes(s, c.ty, v)
    }
}

/// The error kind of a value the column cannot decode.
pub open spec fn column_error_kind(c: Column) -> ErrorKind {
    if c.storage_ty is Json {
        ErrorKind::SerializationFailure
    } else {
        ErrorKind::UnsupportedFeature
    }
}

pub fn find_field<'a>(fs: &'a Vec<(String, SurValue)>, name: &String) -> (r: Option<&'a SurValue>)
    ensures
        match r {
            Some(v) => entry_from(fs@, name@, 0) == Some(*v),
            None => entry_from(fs@, name@, 0) is None,
        },
{
    let n = fs.len();
    let mut i: usize = n;
    let mut found: Option<&SurValue> = None;
    while i > 0
        invariant
            n == fs@.len(),
            i <= n,
            match found {
                Some(v) => entry_from(fs@, name@, i as int) == Some(*v),
                None => entry_from(fs@, name@, i as int) is None,
            },
        decreases i,
    {
        i = i - 1;
        if fs[i].0 == *name {
            found = Some(&fs[i].1);
        }
    }
    found
}

/// Decodes one value read from a column (see `from_surreal_for_column`).
pub fn decode_column(value: &SurValue, column: &Column) -> (r: Result<Value, DriverError>)
    ensures
        r is Ok <==> column_decodable(*column, *value),
        match r {
            Ok(v) => column_decodes(*column, *value, v),
            Err(e) => e.kind == column_error_kind(*column),
        },
{
    from_surreal_for_column(value, column)
}

/// Every selected column of the row decodes.
pub open spec fn row_decodable(t: Table, row: SurValue, select: Seq<ColumnId>) -> bool {
    forall|i: int| 0 <= i < select.len() ==> #[trigger] column_decodable(
        t.col(select[i]),
        row_field(row, t.col(select[i]).name@),
    )
}

/// `rec` holds the decoded selected columns of the row, in order.
pub open spec fn record_decodes(t: Table, row: SurValue, select: Seq<ColumnId>, rec: Seq<Value>) -> bool {
    rec.len() == select.len() && forall|i: int|
        0 <= i < select.len() ==> #[trigger] column_decodes(
            t.col(select[i]),
            row_field(row, t.col(select[i]).name@),
            rec[i],
        )
}

/// Decodes one row into a record with the selected columns in order; a
/// missing field decodes as `NONE`.
pub fn row_to_record(table: &Table, row: &SurValue, select: &Vec<ColumnId>) -> (r: Result<Vec<Value>, DriverError>)
    requires
        cols_valid(*table, select@),
    ensures
        r is Ok <==> row_decodable(*table, *row, select@),
        match r {
            Ok(vs) => record_decodes(*table, *row, select@, vs@),
            Err(e) => exists|i: int| 0 <= i < select@.len() && e.kind == column_error_kind(#[trigger] table.col(select@[i])),
        },
{
    let absent = SurValue::Absent;
    let mut out: Vec<Value> = Vec::new();
    let n = select.len();
    let mut i: usize = 0;
    while i < n
        invariant
            n == select@.len(),
            i <= n,
            absent == SurValue::Absent,
            cols_valid(*table, select@),
            out@.len() == i,
            forall|k: int| 0 <= k < i ==> #[trigger] column_decodable(
                table.col(select@[k]),
                row_field(*row, table.col(select@[k]).name@),
            ),
            forall|k: int| 0 <= k < i ==> #[trigger] column_decodes(
                table.col(select@[k]),
                row_field(*row, table.col(select@[k]).name@),
                out@[k],
            ),
        decreases n - i,
    {
        assert(select@[i as int].index < table.columns@.len());
        let column = &table.columns[select[i].index];
        let field: &SurValue = match row {
            SurValue::Object(fs) => match find_field(fs, &column.name) {
                Some(v) => v,
                None => &absent,
            },
            _ => &absent,
        };
        assert(*field == row_field(*row, column.name@));
        let v = match decode_column(field, column) {
            Ok(v) => v,
            Err(e) => {
                assert(!column_decodable(table.col(select@[i as int]), row_field(*row, table.col(select@[i as int]).name@)));
                return Err(e);
            },
        };
        out.push(v);
        i = i + 1;
    }
    Ok(out)
}

/// Decodes every row.
pub fn rows_to_records(table: &Table, rows: &Vec<SurValue>, select: &Vec<ColumnId>) -> (r: Result<Vec<Vec<Value>>, DriverError>)
    requires
        cols_valid(*table, select@),
    ensures
        r is Ok <==> forall|i: int| 0 <= i < rows@.len() ==> #[trigger] row_decodable(*table, rows@[i], select@),
        r matches Ok(recs) ==> recs@.len() == rows@.len() && forall|i: int|
            0 <= i < rows@.len() ==> #[trigger] record_decodes(*table, rows@[i], select@, recs@[i]@),
{
    let mut out: Vec<Vec<Value>> = Vec::new();
    let n = rows.len();
    let mut i: usize = 0;
    while i < n
        invariant
            n == rows@.len(),
            i <= n,
            cols_valid(*table, select@),
            out@.len() == i,
            forall|k: int| 0 <= k < i ==> #[trigger] row_decodable(*table, rows@[k], select@),
            forall|k: int| 0 <= k < i ==> #[trigger] record_decodes(*table, rows@[k], select@, out@[k]@),
        decreases n - i,
    {
        let rec = match row_to_record(table, &rows[i], select) {
            Ok(rec) => rec,
            Err(e) => {
                return Err(e);
            },
        };
        out.push(rec);
        i = i + 1;
    }
    Ok(out)
}

/// The rows of a statement result: an array's elements, nothing for
/// `NONE`/`NULL`, or the single value otherwise.
pub open spec fn spec_rows_of(value: SurValue) -> Seq<SurValue> {
    match value {
        SurValue::Array(xs) => xs@,
        SurValue::Absent | SurValue::Null => Seq::empty(),
        _ => seq![value],
    }
}

/// Extracts the rows of a statement result.
pub fn take_rows(value: SurValue) -> (r: Vec<SurValue>)
    ensures
        r@ == spec_rows_of(value),
{
    match value {
        SurValue::Array(xs) => xs,
        SurValue::Absent | SurValue::Null => Vec::new(),
        other => {
            let mut v: Vec<SurValue> = Vec::new();
            v.push(other);
            v
        },
    }
}

// ---------------------------------------------------------------------------
// Ordering and pagination
// ---------------------------------------------------------------------------

/// A sort direction.
#[derive(Clone, Copy, PartialEq, Eq, Structural, Debug)]
pub enum Direction {
    Asc,
    Desc,
}

/// How a query's rows are paginated.
#[derive(Debug)]
pub enum Pagination {
    /// Keyset pagination: pages of `page_size`, resuming after a sort key.
    Cursor { page_size: i64, after: Option<Value> },
    /// Offset pagination.
    Offset { limit: i64, offset: Option<i64> },
}

/// ` LIMIT <n>[ START <offset>]` for the requested pagination.
pub open spec fn pagination_suffix(limit: Option<Pagination>) -> Seq<char> {
    match limit {
        None => Seq::empty(),
        Some(Pagination::Offset { limit, offset }) => " LIMIT "@ + spec_signed_decimal(limit as int) + match offset {
            Some(o) => " START "@ + spec_signed_decimal(o as int),
            None => Seq::empty(),
        },
        Some(Pagination::Cursor { page_size, after: _ }) => " LIMIT "@ + spec_signed_decimal(page_size as int),
    }
}

/// Appends `LIMIT`/`START` for the requested pagination, if any.
pub fn apply_pagination(sql: &mut String, limit: &Option<Pagination>)
    ensures
        final(sql)@ == old(sql)@ + pagination_suffix(*limit),
{
    match limit {
        None => {
            assert(sql@ =~= old(sql)@ + pagination_suffix(*limit));
        },
        Some(Pagination::Offset { limit: n, offset }) => {
            sql.append(" LIMIT ");
            push_signed_decimal(sql, *n);
            match offset {
                Some(o) => {
                    sql.append(" START ");
                    push_signed_decimal(sql, *o);
                },
                None => {},
            }
            assert(sql@ =~= old(sql)@ + pagination_suffix(*limit));
        },
        Some(Pagination::Cursor { page_size, after: _ }) => {
            sql.append(" LIMIT ");
            push_signed_decimal(sql, *page_size);
            assert(sql@ =~= old(sql)@ + pagination_suffix(*limit));
        },
    }
}

/// The order the query uses: the requested one, or ascending when cursor
/// pagination needs a deterministic order and none was requested.
pub open spec fn effective_order(order: Option<Direction>, limit: Option<Pagination>) -> Option<Direction> {
    match order {
        Some(d) => Some(d),
        None => if limit matches Some(Pagination::Cursor { .. }) {
            Some(Direction::Asc)
        } else {
            None
        },
    }
}

/// The sort key to resume after, for cursor pagination with a cursor.
pub open spec fn resume_after(limit: Option<Pagination>) -> Option<Value> {
    match limit {
        Some(Pagination::Cursor { page_size: _, after: Some(c) }) => Some(c),
        _ => None,
    }
}

/// The hidden alias of the projected sort key.
pub open spec fn sort_alias() -> Seq<char> {
    "__toasty_sort_key"@
}

/// The `WHERE` predicates of a keyset/offset query whose resume cursor (if
/// any) gets placeholder number `k`: the given predicate, then the keyset
/// condition `<sort> > $pk` (`<` when descending).
pub open spec fn keyset_predicates(predicate: Option<Seq<char>>, sort_ref: Seq<char>, eff: Option<Direction>, limit: Option<Pagination>, k: nat) -> Seq<Seq<char>> {
    let base: Seq<Seq<char>> = match predicate {
        Some(p) => seq![p],
        None => Seq::empty(),
    };
    if resume_after(limit) is Some {
        base.push(
            sort_ref + (if eff == Some(Direction::Desc) {
                " < "@
            } else {
                " > "@
            }) + placeholder(k),
        )
    } else {
        base
    }
}

/// ` WHERE <p1> AND <p2> …`, or nothing without predicates.
pub open spec fn where_clause(preds: Seq<Seq<char>>) -> Seq<char> {
    if preds.len() == 0 {
        Seq::empty()
    } else {
        " WHERE "@ + spec_join(preds, " AND "@)
    }
}

/// The projection, extended by the sort key under its hidden alias when the
/// query is ordered and has a sort key.
pub open spec fn keyset_projection(projection: Seq<char>, sort_ref: Seq<char>, ordered: bool) -> Seq<char> {
    if ordered {
        projection + ", "@ + sort_ref + " AS "@ + sort_alias()
    } else {
        projection
    }
}

/// ` ORDER BY <alias> ASC|DESC` when ordered.
pub open spec fn order_clause(eff: Option<Direction>, ordered: bool) -> Seq<char> {
    if ordered {
        " ORDER BY "@ + sort_alias() + (if eff == Some(Direction::Asc) {
            " ASC"@
        } else {
            " DESC"@
        })
    } else {
        Seq::empty()
    }
}

/// The `SELECT` of a keyset/offset query whose resume cursor (if any) gets
/// placeholder number `k`.
pub open spec fn keyset_sql(
    table_name: Seq<char>,
    projection: Seq<char>,
    predicate: Option<Seq<char>>,
    sort_ref: Seq<char>,
    has_sort: bool,
    order: Option<Direction>,
    limit: Option<Pagination>,
    k: nat,
) -> Seq<char> {
    let eff = effective_order(order, limit);
    let ordered = eff is Some && has_sort;
    "SELECT "@ + keyset_projection(projection, sort_ref, ordered) + " FROM "@ + table_name
        + where_clause(keyset_predicates(predicate, sort_ref, eff, limit, k)) + order_clause(eff, ordered)
        + pagination_suffix(limit)
}

fn push_keyset_predicates(
    predicates: &mut Vec<String>,
    sort_ref: &str,
    eff: Option<Direction>,
    limit: &Option<Pagination>,
    binds: &mut Binds,
) -> (r: Result<(), DriverError>)
    ensures
        r is Ok <==> (resume_after(*limit) matches Some(c) ==> encodable(c)),
        r is Ok ==> views(final(predicates)@) == (if resume_after(*limit) is Some {
            views(old(predicates)@).push(
                sort_ref@ + (if eff == Some(Direction::Desc) {
                    " < "@
                } else {
                    " > "@
                }) + placeholder(old(binds).values@.len()),
            )
        } else {
            views(old(predicates)@)
        }) && binds_extend(
            old(binds).values@,
            final(binds).values@,
            match resume_after(*limit) {
                Some(c) => seq![plain(c)],
                None => Seq::empty(),
            },
        ),
        r matches Err(e) ==> e.kind == ErrorKind::UnsupportedFeature && e.message@ == encode_fault(
            resume_after(*limit)->0,
        ),
{
    let ghost start = binds.values@;
    match limit {
        Some(Pagination::Cursor { page_size: _, after: Some(cursor) }) => {
            let encoded = to_surreal(cursor)?;
            let ph = binds.push(encoded);
            let mut cond = String::new();
            cond.append(sort_ref);
            match eff {
                Some(Direction::Desc) => cond.append(" < "),
                _ => cond.append(" > "),
            }
            cond.append(ph.as_str());
            let ghost before = predicates@;
            predicates.push(cond);
            proof {
                assert(views(predicates@) =~= views(before).push(cond@));
                assert(binds.values@.take(start.len() as int) =~= start);
            }
        },
        _ => {
            proof {
                assert(binds.values@.take(start.len() as int) =~= start);
            }
        },
    }
    Ok(())
}

/// Builds a keyset/offset `SELECT`.
#[verifier::rlimit(60)]
#[verifier::spinoff_prover]
pub fn keyset_select_query(
    table_name: &str,
    projection: &str,
    predicate: Option<String>,
    sort_ref: &str,
    has_sort: bool,
    order: Option<Direction>,
    limit: &Option<Pagination>,
    binds: Binds,
) -> (r: Result<Query, DriverError>)
    ensures
        r is Ok <==> (resume_after(*limit) matches Some(c) ==> encodable(c)),
        match r {
            Ok(q) => q.sql@ == keyset_sql(
                table_name@,
                projection@,
                match predicate {
                    Some(p) => Some(p@),
                    None => None,
                },
                sort_ref@,
                has_sort,
                order,
                *limit,
                binds.values@.len(),
            ) && binds_extend(
                binds.values@,
                q.binds@,
                match resume_after(*limit) {
                    Some(c) => seq![plain(c)],
                    None => Seq::empty(),
                },
            ),
            Err(e) => e.kind == ErrorKind::UnsupportedFeature && e.message@ == encode_fault(resume_after(*limit)->0),
        },
{
    let mut binds = binds;
    let ghost k = binds.values@.len();
    let cursor_mode = match limit {
        Some(Pagination::Cursor { .. }) => true,
        _ => false,
    };
    let effective: Option<Direction> = match order {
        Some(d) => Some(d),
        None => if cursor_mode {
            Some(Direction::Asc)
        } else {
            None
        },
    };
    assert(effective == effective_order(order, *limit));
    let ghost pred_view: Option<Seq<char>> = match &predicate {
        Some(p) => Some(p@),
        None => None,
    };
    let mut predicates: Vec<String> = Vec::new();
    match predicate {
        Some(p) => {
            predicates.push(p);
            assert(views(predicates@) =~= seq![pred_view->0]);
        },
        None => {
            assert(views(predicates@) =~= Seq::<Seq<char>>::empty());
        },
    }
    push_keyset_predicates(&mut predicates, sort_ref, effective, limit, &mut binds)?;
    assert(views(predicates@) == keyset_predicates(pred_view, sort_ref@, effective, *limit, k));
    let ordered = match (effective, has_sort) {
        (Some(_), true) => true,
        _ => false,
    };
    let mut sql = String::new();
    sql.append("SELECT ");
    sql.append(projection);
    if ordered {
        sql.append(", ");
        sql.append(sort_ref);
        sql.append(" AS __toasty_sort_key");
        proof {
            reveal_strlit(" AS __toasty_sort_key");
            reveal_strlit(" AS ");
            reveal_strlit("__toasty_sort_key");
        }
    }
    assert(sql@ =~= "SELECT "@ + keyset_projection(projection@, sort_ref@, ordered));
    let ghost head = sql@;
    sql.append(" FROM ");
    sql.append(table_name);
    let ghost before_where = sql@;
    if predicates.len() > 0 {
        sql.append(" WHERE ");
        push_joined(&mut sql, &predicates, " AND ");
    }
    assert(sql@ =~= before_where + where_clause(views(predicates@)));
    let ghost before_order = sql@;
    if ordered {
        sql.append(" ORDER BY __toasty_sort_key");
        proof {
            reveal_strlit(" ORDER BY __toasty_sort_key");
            reveal_strlit(" ORDER BY ");
            reveal_strlit("__toasty_sort_key");
        }
        match effective {
            Some(Direction::Asc) => sql.append(" ASC"),
            _ => sql.append(" DESC"),
        }
    }
    assert(sql@ =~= before_order + order_clause(effective, ordered));
    apply_pagination(&mut sql, limit);
    assert(sql@ =~= keyset_sql(table_name@, projection@, pred_view, sort_ref@, has_sort, order, *limit, k));
    Ok(Query { sql, binds: binds.into_vec() })
}

/// The sort key of the next page's cursor, for cursor pagination: read from
/// the last row's hidden alias, and only when the page was full (a short page
/// means there is no next page) and the query has a sort key.
pub open spec fn cursor_source(rows: Seq<SurValue>, limit: Option<Pagination>, has_sort: bool) -> Option<SurValue> {
    match limit {
        Some(Pagination::Cursor { page_size, after: _ }) => if rows.len() < (page_size as usize) {
            None
        } else if rows.len() == 0 || !has_sort {
            None
        } else {
            match rows.last() {
                SurValue::Object(fs) => entry_from(fs@, sort_alias(), 0),
                _ => None,
            }
        },
        _ => None,
    }
}

/// Decodes the rows of a keyset/offset query and, for cursor pagination,
/// the next page's cursor (decoded with the sort column's type).
pub fn keyset_response(
    table: &Table,
    rows: &Vec<SurValue>,
    limit: &Option<Pagination>,
    sort_column: Option<ColumnId>,
    select: &Vec<ColumnId>,
) -> (r: Result<ExecResponse, DriverError>)
    requires
        cols_valid(*table, select@),
        sort_column matches Some(c) ==> c.index < table.columns@.len(),
    ensures
        r is Ok <==> (match cursor_source(rows@, *limit, sort_column is Some) {
            Some(v) => decodable(v, table.col(sort_column->0).ty),
            None => true,
        }) && forall|i: int| 0 <= i < rows@.len() ==> #[trigger] row_decodable(*table, rows@[i], select@),
        r matches Ok(resp) ==> resp matches ExecResponse::Rows { records, next_cursor } && records@.len()
            == rows@.len() && (forall|i: int|
            0 <= i < rows@.len() ==> #[trigger] record_decodes(*table, rows@[i], select@, records@[i]@))
            && match cursor_source(rows@, *limit, sort_column is Some) {
            Some(v) => next_cursor matches Some(c) && decodes(v, table.col(sort_column->0).ty, c),
            None => next_cursor is None,
        },
{
    let mut next_cursor: Option<Value> = None;
    match limit {
        Some(Pagination::Cursor { page_size, after: _ }) => {
            let page = *page_size as usize;
            if rows.len() >= page && rows.len() > 0 {
                match sort_column {
                    Some(col) => {
                        match &rows[rows.len() - 1] {
                            SurValue::Object(fs) => {
                                let mut alias = String::new();
                                alias.append("__toasty_sort_key");
                                match find_field(fs, &alias) {
                                    Some(v) => {
                                        let decoded = from_surreal(v, &table.columns[col.index].ty)?;
                                        next_cursor = Some(decoded);
                                    },
                                    None => {},
                                }
                            },
                            _ => {},
                        }
                    },
                    None => {},
                }
            }
        },
        _ => {},
    }
    let records = rows_to_records(table, rows, select)?;
    Ok(ExecResponse::Rows { records, next_cursor })
}

} // verus!
