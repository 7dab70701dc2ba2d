//! Rendering of schema differences as SurrealQL migration statements.
//!
//! Only changes that are safe for SCHEMALESS tables are rendered as physical
//! statements; unsafe data transformations become `THROW` guards that fail the
//! migration until it is edited by hand.

use vstd::prelude::*;
use crate::text::{Escape, escape_ident, escape_seq, push_char, push_escaped, push_joined, spec_escape_ident, spec_join, views};
use crate::schema::{Column, ColumnId, Index, Table, index_in, index_ok, table_ok};

verus! {

/// A change to one column of a table.
#[derive(Debug)]
pub enum ColumnDiff {
    Add(Column),
    Drop(Column),
    Alter { previous: Column, next: Column },
}

/// A change to one index of a table.
#[derive(Debug)]
pub enum IndexDiff {
    Create(Index),
    Drop(Index),
    Alter { previous: Index, next: Index },
}

/// A change to one table of the schema.
#[derive(Debug)]
pub enum TableDiff {
    Create(Table),
    Drop(Table),
    Alter { previous: Table, next: Table, columns: Vec<ColumnDiff>, indices: Vec<IndexDiff> },
}

// ---------------------------------------------------------------------------
// Statement texts
// ---------------------------------------------------------------------------

/// `s` appended to the statements unless an equal statement is already there.
pub open spec fn spec_push_unique(s: Seq<Seq<char>>, x: Seq<char>) -> Seq<Seq<char>> {
    if s.contains(x) {
        s
    } else {
        s.push(x)
    }
}

/// The statements `xs` added one by one to `acc` with [`spec_push_unique`].
pub open spec fn push_all_unique(acc: Seq<Seq<char>>, xs: Seq<Seq<char>>) -> Seq<Seq<char>>
    decreases xs.len(),
{
    if xs.len() == 0 {
        acc
    } else {
        spec_push_unique(push_all_unique(acc, xs.drop_last()), xs.last())
    }
}

/// The ` IF NOT EXISTS` clause when requested.
pub open spec fn if_not_exists(flag: bool) -> Seq<char> {
    if flag {
        " IF NOT EXISTS"@
    } else {
        Seq::empty()
    }
}

/// `THROW 'manual migration required: <reason>'`, the reason escaped for a
/// single-quoted SurrealQL string.
pub open spec fn spec_manual_guard(reason: Seq<char>) -> Seq<char> {
    "THROW 'manual migration required: "@ + escape_seq(Escape::SingleQuoted, reason) + "'"@
}

/// The escaped names of the given columns of `table`.
pub open spec fn index_column_names(table: Table, cols: Seq<ColumnId>) -> Seq<Seq<char>> {
    cols.map_values(|c: ColumnId| spec_escape_ident(table.col(c).name@))
}

/// `DEFINE INDEX [IF NOT EXISTS] <index> ON TABLE <table> COLUMNS <cols>[ UNIQUE]`.
pub open spec fn spec_define_index(table: Table, index: Index, flag: bool) -> Seq<char> {
    "DEFINE INDEX"@ + if_not_exists(flag) + " "@ + spec_escape_ident(index.name@) + " ON TABLE "@
        + spec_escape_ident(table.name@) + " COLUMNS "@ + spec_join(
        index_column_names(table, index.columns@),
        ", "@,
    ) + (if index.unique {
        " UNIQUE"@
    } else {
        Seq::empty()
    })
}

/// `REMOVE INDEX <index> ON TABLE <table>`.
pub open spec fn spec_remove_index(table: Table, index: Index) -> Seq<char> {
    "REMOVE INDEX "@ + spec_escape_ident(index.name@) + " ON TABLE "@ + spec_escape_ident(
        table.name@,
    )
}

/// `DEFINE TABLE [IF NOT EXISTS] <table> SCHEMALESS`.
pub open spec fn spec_define_table(table: Table, flag: bool) -> Seq<char> {
    "DEFINE TABLE"@ + if_not_exists(flag) + " "@ + spec_escape_ident(table.name@) + " SCHEMALESS"@
}

/// Definitions of the secondary (non-primary-key) indices among `indices`, in order.
pub open spec fn secondary_index_definitions(table: Table, indices: Seq<Index>, flag: bool) -> Seq<
    Seq<char>,
>
    decreases indices.len(),
{
    if indices.len() == 0 {
        Seq::empty()
    } else {
        let rest = secondary_index_definitions(table, indices.drop_last(), flag);
        if indices.last().primary_key {
            rest
        } else {
            rest.push(spec_define_index(table, indices.last(), flag))
        }
    }
}

/// The table definition followed by its secondary index definitions.
pub open spec fn spec_define_table_statements(table: Table, flag: bool) -> Seq<Seq<char>> {
    seq![spec_define_table(table, flag)] + secondary_index_definitions(table, table.indices@, flag)
}

/// `REMOVE TABLE <table>`.
pub open spec fn spec_remove_table(table: Table) -> Seq<char> {
    "REMOVE TABLE "@ + spec_escape_ident(table.name@)
}

/// `UPDATE <table> UNSET <column> RETURN NONE`.
pub open spec fn spec_unset(table: Seq<char>, column: Seq<char>) -> Seq<char> {
    "UPDATE "@ + spec_escape_ident(table) + " UNSET "@ + spec_escape_ident(column) + " RETURN NONE"@
}

/// `UPDATE <table> SET <next> = <previous> WHERE <previous> IS NOT NONE RETURN NONE`.
pub open spec fn spec_move_field(table: Seq<char>, previous: Seq<char>, next: Seq<char>) -> Seq<
    char,
> {
    "UPDATE "@ + spec_escape_ident(table) + " SET "@ + spec_escape_ident(next) + " = "@
        + spec_escape_ident(previous) + " WHERE "@ + spec_escape_ident(previous)
        + " IS NOT NONE RETURN NONE"@
}

// ---------------------------------------------------------------------------
// Text builders
// ---------------------------------------------------------------------------

/// Builds a `THROW` guard that aborts the migration with a request for manual
/// editing; the reason is escaped for a single-quoted SurrealQL string.
pub fn manual_guard(reason: &str) -> (r: String)
    ensures
        r@ == spec_manual_guard(reason@),
{
    let mut out = String::new();
    out.append("THROW 'manual migration required: ");
    push_escaped(&mut out, reason, Escape::SingleQuoted);
    out.append("'");
    assert(out@ =~= spec_manual_guard(reason@));
    out
}

/// Appends `statement` unless an equal statement is already present.
pub fn push_unique(statements: &mut Vec<String>, statement: String)
    ensures
        views(final(statements)@) == spec_push_unique(views(old(statements)@), statement@),
{
    let n = statements.len();
    let mut i: usize = 0;
    while i < n
        invariant
            n == statements@.len(),
            i <= n,
            forall|k: int| 0 <= k < i ==> statements@[k]@ != statement@,
        decreases n - i,
    {
        if statements[i] == statement {
            assert(views(statements@)[i as int] == statement@);
            return;
        }
        i = i + 1;
    }
    assert(!views(statements@).contains(statement@));
    let ghost before = statements@;
    statements.push(statement);
    assert(views(statements@) =~= views(before).push(statement@));
}

/// Appends the escaped names of the given columns of `table`, joined by `, `.
fn push_index_columns(out: &mut String, table: &Table, index: &Index)
    requires
        index_in(*table, *index),
    ensures
        final(out)@ == old(out)@ + spec_join(index_column_names(*table, index.columns@), ", "@),
{
    let mut names: Vec<String> = Vec::new();
    let n = index.columns.len();
    let mut i: usize = 0;
    while i < n
        invariant
            n == index.columns@.len(),
            i <= n,
            index_in(*table, *index),
            views(names@) == index_column_names(*table, index.columns@.take(i as int)),
        decreases n - i,
    {
        let id = index.columns[i];
        assert(index.columns@[i as int].index < table.columns@.len());
        let name = escape_ident(table.columns[id.index].name.as_str());
        let ghost before = names@;
        names.push(name);
        proof {
            assert(index.columns@.take(i + 1) =~= index.columns@.take(i as int).push(id));
            assert(views(names@) =~= views(before).push(name@));
            assert(index_column_names(*table, index.columns@.take(i + 1)) =~= index_column_names(
                *table,
                index.columns@.take(i as int),
            ).push(spec_escape_ident(table.col(id).name@)));
        }
        i = i + 1;
    }
    assert(index.columns@.take(n as int) =~= index.columns@);
    push_joined(out, &names, ", ");
}

/// `DEFINE INDEX [IF NOT EXISTS] <index> ON TABLE <table> COLUMNS <cols>[ UNIQUE]`.
pub fn define_index_statement(table: &Table, index: &Index, flag: bool) -> (r: String)
    requires
        index_in(*table, *index),
    ensures
        r@ == spec_define_index(*table, *index, flag),
{
    let mut out = String::new();
    out.append("DEFINE INDEX");
    if flag {
        out.append(" IF NOT EXISTS");
    }
    out.append(" ");
    push_escaped_ident(&mut out, index.name.as_str());
    out.append(" ON TABLE ");
    push_escaped_ident(&mut out, table.name.as_str());
    out.append(" COLUMNS ");
    push_index_columns(&mut out, table, index);
    if index.unique {
        out.append(" UNIQUE");
    }
    assert(out@ =~= spec_define_index(*table, *index, flag));
    out
}

/// Appends a backtick identifier.
pub fn push_escaped_ident(out: &mut String, name: &str)
    ensures
        final(out)@ == old(out)@ + spec_escape_ident(name@),
{
    push_char(out, '`');
    push_escaped(out, name, Escape::Backtick);
    push_char(out, '`');
    assert(out@ =~= old(out)@ + spec_escape_ident(name@));
}

/// `REMOVE INDEX <index> ON TABLE <table>`.
pub fn remove_index_statement(table: &Table, index: &Index) -> (r: String)
    ensures
        r@ == spec_remove_index(*table, *index),
{
    let mut out = String::new();
    out.append("REMOVE INDEX ");
    push_escaped_ident(&mut out, index.name.as_str());
    out.append(" ON TABLE ");
    push_escaped_ident(&mut out, table.name.as_str());
    assert(out@ =~= spec_remove_index(*table, *index));
    out
}

/// Renders the table and all its secondary indices. Schema pushes use the
/// idempotent `IF NOT EXISTS` form; generated migrations deliberately omit it
/// so that schema drift is detected.
pub fn define_table_statements(table: &Table, flag: bool) -> (r: Vec<String>)
    requires
        table.wf(),
    ensures
        views(r@) == spec_define_table_statements(*table, flag),
{
    let mut out = String::new();
    out.append("DEFINE TABLE");
    if flag {
        out.append(" IF NOT EXISTS");
    }
    out.append(" ");
    push_escaped_ident(&mut out, table.name.as_str());
    out.append(" SCHEMALESS");
    assert(out@ =~= spec_define_table(*table, flag));
    let mut statements: Vec<String> = Vec::new();
    statements.push(out);
    let n = table.indices.len();
    let mut i: usize = 0;
    while i < n
        invariant
            n == table.indices@.len(),
            i <= n,
            table.wf(),
            views(statements@) == seq![spec_define_table(*table, flag)]
                + secondary_index_definitions(*table, table.indices@.take(i as int), flag),
        decreases n - i,
    {
        let index = &table.indices[i];
        let ghost before = statements@;
        assert(table.indices@.take(i + 1).drop_last() =~= table.indices@.take(i as int));
        if !index.primary_key {
            assert(index_in(*table, table.indices@[i as int]));
            let statement = define_index_statement(table, index, flag);
            statements.push(statement);
            assert(views(statements@) =~= views(before).push(statement@));
        }
        i = i + 1;
    }
    assert(table.indices@.take(n as int) =~= table.indices@);
    statements
}

// ---------------------------------------------------------------------------
// Primary-key layout changes
// ---------------------------------------------------------------------------

/// The new version of the column `id` among the alterations from position `i`
/// on: the first `Alter` whose previous column has that id.
pub open spec fn find_alter_from(cds: Seq<ColumnDiff>, id: ColumnId, i: int) -> Option<Column>
    decreases cds.len() - i,
{
    if i < 0 || i >= cds.len() {
        None
    } else {
        match cds[i] {
            ColumnDiff::Alter { previous, next } => if previous.id == id {
                Some(next)
            } else {
                find_alter_from(cds, id, i + 1)
            },
            _ => find_alter_from(cds, id, i + 1),
        }
    }
}

/// The first column from position `i` on with the given name.
pub open spec fn find_named_from(cols: Seq<Column>, name: Seq<char>, i: int) -> Option<Column>
    decreases cols.len() - i,
{
    if i < 0 || i >= cols.len() {
        None
    } else if cols[i].name@ == name {
        Some(cols[i])
    } else {
        find_named_from(cols, name, i + 1)
    }
}

/// Where a previous column ends up in the next table: its explicit alteration,
/// or else the next column with the same name.
pub open spec fn mapped_column(next: Table, cds: Seq<ColumnDiff>, column: Column) -> Option<Column> {
    match find_alter_from(cds, column.id, 0) {
        Some(c) => Some(c),
        None => find_named_from(next.columns@, column.name@, 0),
    }
}

/// Primary-key slot `i` holds a different column, or its type changed.
pub open spec fn pk_slot_changed(previous: Table, next: Table, cds: Seq<ColumnDiff>, i: int) -> bool {
    let pc = previous.col(previous.primary_key@[i]);
    let npk = next.col(next.primary_key@[i]);
    match mapped_column(next, cds, pc) {
        None => true,
        Some(m) => m.id != npk.id || pc.ty != m.ty || !pc.storage_ty.equals(m.storage_ty),
    }
}

/// The primary key changed its arity, its columns, or their types.
pub open spec fn spec_primary_key_changed(previous: Table, next: Table, cds: Seq<ColumnDiff>) -> bool {
    previous.primary_key@.len() != next.primary_key@.len() || exists|i: int|
        0 <= i < previous.primary_key@.len() && #[trigger] pk_slot_changed(previous, next, cds, i)
}

fn find_alter<'a>(cds: &'a Vec<ColumnDiff>, id: ColumnId) -> (r: Option<&'a Column>)
    ensures
        match r {
            Some(c) => find_alter_from(cds@, id, 0) == Some(*c),
            None => find_alter_from(cds@, id, 0) is None,
        },
{
    let n = cds.len();
    let mut i: usize = n;
    let mut found: Option<&Column> = None;
    while i > 0
        invariant
            n == cds@.len(),
            i <= n,
            match found {
                Some(c) => find_alter_from(cds@, id, i as int) == Some(*c),
                None => find_alter_from(cds@, id, i as int) is None,
            },
        decreases i,
    {
        i = i - 1;
        match &cds[i] {
            ColumnDiff::Alter { previous, next } => {
                if previous.id == id {
                    found = Some(next);
                }
            },
            _ => {},
        }
    }
    found
}

fn find_named<'a>(cols: &'a Vec<Column>, name: &String) -> (r: Option<&'a Column>)
    ensures
        match r {
            Some(c) => find_named_from(cols@, name@, 0) == Some(*c),
            None => find_named_from(cols@, name@, 0) is None,
        },
{
    let n = cols.len();
    let mut i: usize = n;
    let mut found: Option<&Column> = None;
    while i > 0
        invariant
            n == cols@.len(),
            i <= n,
            match found {
                Some(c) => find_named_from(cols@, name@, i as int) == Some(*c),
                None => find_named_from(cols@, name@, i as int) is None,
            },
        decreases i,
    {
        i = i - 1;
        if cols[i].name == *name {
            found = Some(&cols[i]);
        }
    }
    found
}

/// Whether the primary key changed arity, moved to different columns, or
/// changed a key column's type. A renamed key column is followed through its
/// alteration (or, failing that, found by its previous name).
pub fn primary_key_changed(previous: &Table, next: &Table, columns: &Vec<ColumnDiff>) -> (r: bool)
    requires
        previous.wf(),
        next.wf(),
    ensures
        r == spec_primary_key_changed(*previous, *next, columns@),
{
    if previous.primary_key.len() != next.primary_key.len() {
        return true;
    }
    let n = previous.primary_key.len();
    let mut i: usize = 0;
    while i < n
        invariant
            n == previous.primary_key@.len(),
            n == next.primary_key@.len(),
            previous.wf(),
            next.wf(),
            i <= n,
            forall|k: int| 0 <= k < i ==> !#[trigger] pk_slot_changed(*previous, *next, columns@, k),
        decreases n - i,
    {
        let previous_column = &previous.columns[previous.primary_key[i].index];
        let next_pk_column = &next.columns[next.primary_key[i].index];
        let mapped = match find_alter(columns, previous_column.id) {
            Some(c) => Some(c),
            None => find_named(&next.columns, &previous_column.name),
        };
        let changed = match mapped {
            None => true,
            Some(m) => m.id != next_pk_column.id || !previous_column.ty.same(&m.ty)
                || !previous_column.storage_ty.same(&m.storage_ty),
        };
        if changed {
            assert(pk_slot_changed(*previous, *next, columns@, i as int));
            return true;
        }
        i = i + 1;
    }
    false
}

// ---------------------------------------------------------------------------
// Altered tables
// ---------------------------------------------------------------------------

/// Whether an alteration changes the column's Toasty type or storage type.
pub open spec fn column_type_changed(previous: Column, next: Column) -> bool {
    previous.ty != next.ty || !previous.storage_ty.equals(next.storage_ty)
}

/// `table rename from <previous> to <next>`.
pub open spec fn table_rename_reason(previous: Seq<char>, next: Seq<char>) -> Seq<char> {
    "table rename from "@ + previous + " to "@ + next
}

/// `primary-key layout or type change on <table>`.
pub open spec fn primary_key_reason(table: Seq<char>) -> Seq<char> {
    "primary-key layout or type change on "@ + table
}

/// `column type change on <table>.<column>`.
pub open spec fn type_change_reason(table: Seq<char>, column: Seq<char>) -> Seq<char> {
    "column type change on "@ + table + "."@ + column
}

/// One type-change guard per alteration that changes a column's type, in order.
pub open spec fn column_guard_candidates(next: Table, cds: Seq<ColumnDiff>) -> Seq<Seq<char>>
    decreases cds.len(),
{
    if cds.len() == 0 {
        Seq::empty()
    } else {
        let rest = column_guard_candidates(next, cds.drop_last());
        match cds.last() {
            ColumnDiff::Alter { previous, next: nc } => if column_type_changed(previous, nc) {
                rest.push(spec_manual_guard(type_change_reason(next.name@, nc.name@)))
            } else {
                rest
            },
            _ => rest,
        }
    }
}

/// An alteration that renames a column that is not a primary-key column on
/// either side (a key column lives only in the record id).
pub open spec fn is_data_rename(previous: Table, next: Table, p: Column, n: Column) -> bool {
    p.name@ != n.name@ && !previous.spec_is_primary_key(p.id) && !next.spec_is_primary_key(n.id)
}

/// Data statements: a dropped non-key column is unset; a renamed non-key
/// column has its values moved to the new field and the old field unset.
pub open spec fn column_data_changes(previous: Table, next: Table, cds: Seq<ColumnDiff>) -> Seq<
    Seq<char>,
>
    decreases cds.len(),
{
    if cds.len() == 0 {
        Seq::empty()
    } else {
        let rest = column_data_changes(previous, next, cds.drop_last());
        match cds.last() {
            ColumnDiff::Drop(c) => if !previous.spec_is_primary_key(c.id) {
                rest.push(spec_unset(next.name@, c.name@))
            } else {
                rest
            },
            ColumnDiff::Alter { previous: p, next: n } => if is_data_rename(previous, next, p, n) {
                rest.push(spec_move_field(next.name@, p.name@, n.name@)).push(
                    spec_unset(next.name@, p.name@),
                )
            } else {
                rest
            },
            ColumnDiff::Add(_) => rest,
        }
    }
}

/// The (previous, next) column ids of every data rename, in order.
pub open spec fn column_renames(previous: Table, next: Table, cds: Seq<ColumnDiff>) -> Seq<
    (ColumnId, ColumnId),
>
    decreases cds.len(),
{
    if cds.len() == 0 {
        Seq::empty()
    } else {
        let rest = column_renames(previous, next, cds.drop_last());
        match cds.last() {
            ColumnDiff::Alter { previous: p, next: n } => if is_data_rename(previous, next, p, n) {
                rest.push((p.id, n.id))
            } else {
                rest
            },
            _ => rest,
        }
    }
}

/// Removals asked for by the index changes: dropped and altered secondary indices.
pub open spec fn index_diff_removals(previous: Table, ids: Seq<IndexDiff>) -> Seq<Seq<char>>
    decreases ids.len(),
{
    if ids.len() == 0 {
        Seq::empty()
    } else {
        let rest = index_diff_removals(previous, ids.drop_last());
        match ids.last() {
            IndexDiff::Drop(ix) => if !ix.primary_key {
                rest.push(spec_remove_index(previous, ix))
            } else {
                rest
            },
            IndexDiff::Alter { previous: p, next: _ } => if !p.primary_key {
                rest.push(spec_remove_index(previous, p))
            } else {
                rest
            },
            IndexDiff::Create(_) => rest,
        }
    }
}

/// Definitions asked for by the index changes: created and altered secondary indices.
pub open spec fn index_diff_definitions(next: Table, ids: Seq<IndexDiff>) -> Seq<Seq<char>>
    decreases ids.len(),
{
    if ids.len() == 0 {
        Seq::empty()
    } else {
        let rest = index_diff_definitions(next, ids.drop_last());
        match ids.last() {
            IndexDiff::Create(ix) => if !ix.primary_key {
                rest.push(spec_define_index(next, ix, false))
            } else {
                rest
            },
            IndexDiff::Alter { previous: _, next: n } => if !n.primary_key {
                rest.push(spec_define_index(next, n, false))
            } else {
                rest
            },
            IndexDiff::Drop(_) => rest,
        }
    }
}

/// A secondary index that covers the given column.
pub open spec fn touches(ix: Index, col: ColumnId) -> bool {
    !ix.primary_key && ix.columns@.contains(col)
}

/// Removals of the secondary indices among `ixs` that cover `col`.
pub open spec fn touching_removals(table: Table, ixs: Seq<Index>, col: ColumnId) -> Seq<Seq<char>>
    decreases ixs.len(),
{
    if ixs.len() == 0 {
        Seq::empty()
    } else {
        let rest = touching_removals(table, ixs.drop_last(), col);
        if touches(ixs.last(), col) {
            rest.push(spec_remove_index(table, ixs.last()))
        } else {
            rest
        }
    }
}

/// Definitions of the secondary indices among `ixs` that cover `col`.
pub open spec fn touching_definitions(table: Table, ixs: Seq<Index>, col: ColumnId) -> Seq<
    Seq<char>,
>
    decreases ixs.len(),
{
    if ixs.len() == 0 {
        Seq::empty()
    } else {
        let rest = touching_definitions(table, ixs.drop_last(), col);
        if touches(ixs.last(), col) {
            rest.push(spec_define_index(table, ixs.last(), false))
        } else {
            rest
        }
    }
}

/// For each rename, the removals of previous indices covering the old field.
pub open spec fn rename_removals(previous: Table, renames: Seq<(ColumnId, ColumnId)>) -> Seq<
    Seq<char>,
>
    decreases renames.len(),
{
    if renames.len() == 0 {
        Seq::empty()
    } else {
        rename_removals(previous, renames.drop_last()) + touching_removals(
            previous,
            previous.indices@,
            renames.last().0,
        )
    }
}

/// For each rename, the definitions of next indices covering the new field.
pub open spec fn rename_definitions(next: Table, renames: Seq<(ColumnId, ColumnId)>) -> Seq<
    Seq<char>,
>
    decreases renames.len(),
{
    if renames.len() == 0 {
        Seq::empty()
    } else {
        rename_definitions(next, renames.drop_last()) + touching_definitions(
            next,
            next.indices@,
            renames.last().1,
        )
    }
}

/// The guards of an altered table, without repetition.
pub open spec fn alter_guards(previous: Table, next: Table, cds: Seq<ColumnDiff>) -> Seq<Seq<char>> {
    let pk = if spec_primary_key_changed(previous, next, cds) {
        seq![spec_manual_guard(primary_key_reason(next.name@))]
    } else {
        Seq::empty()
    };
    push_all_unique(Seq::empty(), pk + column_guard_candidates(next, cds))
}

/// The index removals of an altered table, without repetition.
pub open spec fn alter_removals(previous: Table, next: Table, cds: Seq<ColumnDiff>, ids: Seq<IndexDiff>) -> Seq<Seq<char>> {
    push_all_unique(
        Seq::empty(),
        index_diff_removals(previous, ids) + rename_removals(previous, column_renames(previous, next, cds)),
    )
}

/// The index definitions of an altered table, without repetition.
pub open spec fn alter_definitions(previous: Table, next: Table, cds: Seq<ColumnDiff>, ids: Seq<IndexDiff>) -> Seq<Seq<char>> {
    push_all_unique(
        Seq::empty(),
        index_diff_definitions(next, ids) + rename_definitions(next, column_renames(previous, next, cds)),
    )
}

/// The statements of an altered table whose name did not change: guards,
/// then index removals, then index definitions, then data changes.
pub open spec fn alter_statements(previous: Table, next: Table, cds: Seq<ColumnDiff>, ids: Seq<IndexDiff>) -> Seq<Seq<char>> {
    alter_guards(previous, next, cds) + alter_removals(previous, next, cds, ids) + alter_definitions(
        previous,
        next,
        cds,
        ids,
    ) + column_data_changes(previous, next, cds)
}

/// The statements after rendering an altered table onto `stmts`. A renamed
/// table only gets a guard: its name is part of every record id, so no later
/// table-local statement would have a valid target.
pub open spec fn spec_render_alter(stmts: Seq<Seq<char>>, previous: Table, next: Table, cds: Seq<ColumnDiff>, ids: Seq<IndexDiff>) -> Seq<Seq<char>> {
    if previous.name@ != next.name@ {
        spec_push_unique(stmts, spec_manual_guard(table_rename_reason(previous.name@, next.name@)))
    } else {
        stmts + alter_statements(previous, next, cds, ids)
    }
}

/// Index changes refer only to columns of the tables they belong to.
pub open spec fn index_diffs_wf(next: Table, ids: Seq<IndexDiff>) -> bool {
    forall|k: int| 0 <= k < ids.len() ==> match #[trigger] ids[k] {
        IndexDiff::Create(ix) => index_in(next, ix),
        IndexDiff::Alter { previous: _, next: n } => index_in(next, n),
        IndexDiff::Drop(_) => true,
    }
}

/// Adds `src` to `dst` one statement at a time, skipping repeats.
pub fn push_all(dst: &mut Vec<String>, src: Vec<String>)
    ensures
        views(final(dst)@) == push_all_unique(views(old(dst)@), views(src@)),
{
    let ghost start = views(dst@);
    let n = src.len();
    let mut i: usize = 0;
    let mut src = src;
    let ghost all = src@;
    while i < n
        invariant
            n == src@.len(),
            src@ == all,
            i <= n,
            views(dst@) == push_all_unique(start, views(all).take(i as int)),
        decreases n - i,
    {
        let item = src[i].clone();
        push_unique(dst, item);
        proof {
            assert(views(all).take(i + 1).drop_last() =~= views(all).take(i as int));
        }
        i = i + 1;
    }
    assert(views(all).take(n as int) =~= views(all));
}

/// Appends `b` to `a`.
pub fn append_all(a: &mut Vec<String>, b: Vec<String>)
    ensures
        views(final(a)@) == views(old(a)@) + views(b@),
{
    let mut b = b;
    let ghost old_a = a@;
    let ghost old_b = b@;
    a.append(&mut b);
    assert(a@ =~= old_a + old_b);
    assert(views(a@) =~= views(old_a) + views(old_b));
}

fn column_guards(next: &Table, columns: &Vec<ColumnDiff>) -> (r: Vec<String>)
    ensures
        views(r@) == column_guard_candidates(*next, columns@),
{
    let mut out: Vec<String> = Vec::new();
    let n = columns.len();
    let mut i: usize = 0;
    while i < n
        invariant
            n == columns@.len(),
            i <= n,
            views(out@) == column_guard_candidates(*next, columns@.take(i as int)),
        decreases n - i,
    {
        assert(columns@.take(i + 1).drop_last() =~= columns@.take(i as int));
        match &columns[i] {
            ColumnDiff::Alter { previous: pc, next: nc } => {
                if !pc.ty.same(&nc.ty) || !pc.storage_ty.same(&nc.storage_ty) {
                    let mut reason = String::new();
                    reason.append("column type change on ");
                    reason.append(next.name.as_str());
                    reason.append(".");
                    reason.append(nc.name.as_str());
                    assert(reason@ =~= type_change_reason(next.name@, nc.name@));
                    let guard = manual_guard(reason.as_str());
                    let ghost before = out@;
                    out.push(guard);
                    assert(views(out@) =~= views(before).push(guard@));
                }
            },
            _ => {},
        }
        i = i + 1;
    }
    assert(columns@.take(n as int) =~= columns@);
    out
}

fn unset_statement(table: &str, column: &str) -> (r: String)
    ensures
        r@ == spec_unset(table@, column@),
{
    let mut out = String::new();
    out.append("UPDATE ");
    push_escaped_ident(&mut out, table);
    out.append(" UNSET ");
    push_escaped_ident(&mut out, column);
    out.append(" RETURN NONE");
    assert(out@ =~= spec_unset(table@, column@));
    out
}

fn move_field_statement(table: &str, previous: &str, next: &str) -> (r: String)
    ensures
        r@ == spec_move_field(table@, previous@, next@),
{
    let mut out = String::new();
    out.append("UPDATE ");
    push_escaped_ident(&mut out, table);
    out.append(" SET ");
    push_escaped_ident(&mut out, next);
    out.append(" = ");
    push_escaped_ident(&mut out, previous);
    out.append(" WHERE ");
    push_escaped_ident(&mut out, previous);
    out.append(" IS NOT NONE RETURN NONE");
    assert(out@ =~= spec_move_field(table@, previous@, next@));
    out
}

/// The data statements and the data renames of an altered table.
fn data_changes(previous: &Table, next: &Table, columns: &Vec<ColumnDiff>) -> (r: (Vec<String>, Vec<(ColumnId, ColumnId)>))
    ensures
        views(r.0@) == column_data_changes(*previous, *next, columns@),
        r.1@ == column_renames(*previous, *next, columns@),
{
    let mut out: Vec<String> = Vec::new();
    let mut renames: Vec<(ColumnId, ColumnId)> = Vec::new();
    let n = columns.len();
    let mut i: usize = 0;
    while i < n
        invariant
            n == columns@.len(),
            i <= n,
            views(out@) == column_data_changes(*previous, *next, columns@.take(i as int)),
            renames@ == column_renames(*previous, *next, columns@.take(i as int)),
        decreases n - i,
    {
        assert(columns@.take(i + 1).drop_last() =~= columns@.take(i as int));
        let ghost before = out@;
        match &columns[i] {
            ColumnDiff::Drop(c) => {
                if !previous.is_primary_key(c.id) {
                    let st = unset_statement(next.name.as_str(), c.name.as_str());
                    out.push(st);
                    assert(views(out@) =~= views(before).push(st@));
                }
            },
            ColumnDiff::Alter { previous: pc, next: nc } => {
                if pc.name != nc.name && !previous.is_primary_key(pc.id) && !next.is_primary_key(nc.id) {
                    renames.push((pc.id, nc.id));
                    let mv = move_field_statement(next.name.as_str(), pc.name.as_str(), nc.name.as_str());
                    let un = unset_statement(next.name.as_str(), pc.name.as_str());
                    out.push(mv);
                    out.push(un);
                    assert(views(out@) =~= views(before).push(mv@).push(un@));
                }
            },
            ColumnDiff::Add(_) => {},
        }
        i = i + 1;
    }
    assert(columns@.take(n as int) =~= columns@);
    (out, renames)
}

/// Removals and definitions asked for by the index changes.
fn index_changes(previous: &Table, next: &Table, indices: &Vec<IndexDiff>) -> (r: (Vec<String>, Vec<String>))
    requires
        index_diffs_wf(*next, indices@),
    ensures
        views(r.0@) == index_diff_removals(*previous, indices@),
        views(r.1@) == index_diff_definitions(*next, indices@),
{
    let mut removals: Vec<String> = Vec::new();
    let mut definitions: Vec<String> = Vec::new();
    let n = indices.len();
    let mut i: usize = 0;
    while i < n
        invariant
            n == indices@.len(),
            i <= n,
            index_diffs_wf(*next, indices@),
            views(removals@) == index_diff_removals(*previous, indices@.take(i as int)),
            views(definitions@) == index_diff_definitions(*next, indices@.take(i as int)),
        decreases n - i,
    {
        assert(indices@.take(i + 1).drop_last() =~= indices@.take(i as int));
        let ghost before_r = removals@;
        let ghost before_d = definitions@;
        let ghost entry = indices@[i as int];
        match &indices[i] {
            IndexDiff::Create(ix) => {
                if !ix.primary_key {
                    assert(index_in(*next, *ix));
                    let st = define_index_statement(next, ix, false);
                    definitions.push(st);
                    assert(views(definitions@) =~= views(before_d).push(st@));
                }
            },
            IndexDiff::Drop(ix) => {
                if !ix.primary_key {
                    let st = remove_index_statement(previous, ix);
                    removals.push(st);
                    assert(views(removals@) =~= views(before_r).push(st@));
                }
            },
            IndexDiff::Alter { previous: pi, next: ni } => {
                if !pi.primary_key {
                    let st = remove_index_statement(previous, pi);
                    removals.push(st);
                    assert(views(removals@) =~= views(before_r).push(st@));
                }
                if !ni.primary_key {
                    assert(index_in(*next, *ni));
                    let st = define_index_statement(next, ni, false);
                    let ghost mid = definitions@;
                    definitions.push(st);
                    assert(views(definitions@) =~= views(mid).push(st@));
                }
            },
        }
        i = i + 1;
    }
    assert(indices@.take(n as int) =~= indices@);
    (removals, definitions)
}

fn contains_column(cols: &Vec<ColumnId>, col: ColumnId) -> (r: bool)
    ensures
        r == cols@.contains(col),
{
    let n = cols.len();
    let mut i: usize = 0;
    while i < n
        invariant
            n == cols@.len(),
            i <= n,
            forall|k: int| 0 <= k < i ==> cols@[k] != col,
        decreases n - i,
    {
        if cols[i] == col {
            return true;
        }
        i = i + 1;
    }
    false
}

/// Removals (`define == false`) or definitions (`define == true`) of the
/// secondary indices of `table` that cover `col`.
fn touching(table: &Table, col: ColumnId, define: bool) -> (r: Vec<String>)
    requires
        table.wf(),
    ensures
        define ==> views(r@) == touching_definitions(*table, table.indices@, col),
        !define ==> views(r@) == touching_removals(*table, table.indices@, col),
{
    let mut out: Vec<String> = Vec::new();
    let n = table.indices.len();
    let mut i: usize = 0;
    while i < n
        invariant
            n == table.indices@.len(),
            i <= n,
            table.wf(),
            define ==> views(out@) == touching_definitions(*table, table.indices@.take(i as int), col),
            !define ==> views(out@) == touching_removals(*table, table.indices@.take(i as int), col),
        decreases n - i,
    {
        assert(table.indices@.take(i + 1).drop_last() =~= table.indices@.take(i as int));
        let index = &table.indices[i];
        if !index.primary_key && contains_column(&index.columns, col) {
            let ghost before = out@;
            let st = if define {
                assert(index_in(*table, table.indices@[i as int]));
                define_index_statement(table, index, false)
            } else {
                remove_index_statement(table, index)
            };
            out.push(st);
            assert(views(out@) =~= views(before).push(st@));
        }
        i = i + 1;
    }
    assert(table.indices@.take(n as int) =~= table.indices@);
    out
}

/// Index rebuilds for renamed fields: SurrealDB stores physical field names
/// in an index definition, so every secondary index over a renamed field is
/// removed (by its previous form) and defined again (by its next form).
fn rename_rebuilds(previous: &Table, next: &Table, renames: &Vec<(ColumnId, ColumnId)>) -> (r: (Vec<String>, Vec<String>))
    requires
        previous.wf(),
        next.wf(),
    ensures
        views(r.0@) == rename_removals(*previous, renames@),
        views(r.1@) == rename_definitions(*next, renames@),
{
    let mut removals: Vec<String> = Vec::new();
    let mut definitions: Vec<String> = Vec::new();
    let n = renames.len();
    let mut i: usize = 0;
    while i < n
        invariant
            n == renames@.len(),
            i <= n,
            previous.wf(),
            next.wf(),
            views(removals@) == rename_removals(*previous, renames@.take(i as int)),
            views(definitions@) == rename_definitions(*next, renames@.take(i as int)),
        decreases n - i,
    {
        assert(renames@.take(i + 1).drop_last() =~= renames@.take(i as int));
        let (pid, nid) = renames[i];
        let r = touching(previous, pid, false);
        let d = touching(next, nid, true);
        append_all(&mut removals, r);
        append_all(&mut definitions, d);
        i = i + 1;
    }
    assert(renames@.take(n as int) =~= renames@);
    (removals, definitions)
}

/// Renders an altered table onto `statements`.
///
/// Guards come first, so an unedited unsafe migration performs no transient
/// destructive change before the transaction is cancelled; replacement
/// indices are defined before field data is moved, because the index builder
/// cannot see values written earlier in the same transaction, while later
/// writes do maintain an index that already exists.
#[verifier::spinoff_prover]
pub fn render_alter_table(
    previous: &Table,
    next: &Table,
    columns: &Vec<ColumnDiff>,
    indices: &Vec<IndexDiff>,
    statements: &mut Vec<String>,
)
    requires
        previous.wf(),
        next.wf(),
        index_diffs_wf(*next, indices@),
    ensures
        views(final(statements)@) == spec_render_alter(
            views(old(statements)@),
            *previous,
            *next,
            columns@,
            indices@,
        ),
{
    if previous.name != next.name {
        let mut reason = String::new();
        reason.append("table rename from ");
        reason.append(previous.name.as_str());
        reason.append(" to ");
        reason.append(next.name.as_str());
        assert(reason@ =~= table_rename_reason(previous.name@, next.name@));
        let guard = manual_guard(reason.as_str());
        push_unique(statements, guard);
        return;
    }
    let mut candidates: Vec<String> = Vec::new();
    if primary_key_changed(previous, next, columns) {
        let mut reason = String::new();
        reason.append("primary-key layout or type change on ");
        reason.append(next.name.as_str());
        assert(reason@ =~= primary_key_reason(next.name@));
        let guard = manual_guard(reason.as_str());
        candidates.push(guard);
        assert(views(candidates@) =~= seq![spec_manual_guard(primary_key_reason(next.name@))]);
    } else {
        assert(views(candidates@) =~= Seq::<Seq<char>>::empty());
    }
    append_all(&mut candidates, column_guards(next, columns));
    let mut guards: Vec<String> = Vec::new();
    push_all(&mut guards, candidates);
    assert(views(guards@) == alter_guards(*previous, *next, columns@)) by {
        assert(views(Seq::<String>::empty()) =~= Seq::<Seq<char>>::empty());
    }

    let (changes, renames) = data_changes(previous, next, columns);
    let (mut diff_removals, mut diff_definitions) = index_changes(previous, next, indices);
    let (rebuild_removals, rebuild_definitions) = rename_rebuilds(previous, next, &renames);
    append_all(&mut diff_removals, rebuild_removals);
    append_all(&mut diff_definitions, rebuild_definitions);
    let mut removals: Vec<String> = Vec::new();
    push_all(&mut removals, diff_removals);
    let mut definitions: Vec<String> = Vec::new();
    push_all(&mut definitions, diff_definitions);
    assert(views(Seq::<String>::empty()) =~= Seq::<Seq<char>>::empty());

    let ghost start = views(statements@);
    append_all(statements, guards);
    append_all(statements, removals);
    append_all(statements, definitions);
    append_all(statements, changes);
    assert(views(statements@) =~= start + alter_statements(*previous, *next, columns@, indices@));
}

// ---------------------------------------------------------------------------
// Whole migrations
// ---------------------------------------------------------------------------

/// The statements after rendering one table change onto `stmts`.
pub open spec fn spec_table_change(stmts: Seq<Seq<char>>, d: TableDiff) -> Seq<Seq<char>> {
    match d {
        TableDiff::Create(t) => stmts + spec_define_table_statements(t, false),
        TableDiff::Drop(t) => stmts.push(spec_remove_table(t)),
        TableDiff::Alter { previous, next, columns, indices } => spec_render_alter(
            stmts,
            previous,
            next,
            columns@,
            indices@,
        ),
    }
}

/// The statements of all table changes, in order.
pub open spec fn render_table_changes(ds: Seq<TableDiff>) -> Seq<Seq<char>>
    decreases ds.len(),
{
    if ds.len() == 0 {
        Seq::empty()
    } else {
        spec_table_change(render_table_changes(ds.drop_last()), ds.last())
    }
}

/// The migration for a schema difference: the statements of every table
/// change, or a lone `RETURN NONE` when no change needs a physical statement
/// (so the migration can still be recorded as applied).
pub open spec fn spec_generate(ds: Seq<TableDiff>) -> Seq<Seq<char>> {
    let s = render_table_changes(ds);
    if s.len() == 0 {
        seq!["RETURN NONE"@]
    } else {
        s
    }
}

/// The table changes refer only to columns of the tables involved.
pub open spec fn table_diffs_wf(ds: Seq<TableDiff>) -> bool {
    forall|k: int| 0 <= k < ds.len() ==> match #[trigger] ds[k] {
        TableDiff::Create(t) => t.wf(),
        TableDiff::Drop(_) => true,
        TableDiff::Alter { previous, next, columns: _, indices } => previous.wf() && next.wf()
            && index_diffs_wf(next, indices@),
    }
}

/// Whether the table changes refer only to columns of the tables involved
/// (see [`generate`]'s precondition).
pub fn diffs_ok(diffs: &Vec<TableDiff>) -> (r: bool)
    ensures
        r == table_diffs_wf(diffs@),
{
    let n = diffs.len();
    let mut i: usize = 0;
    while i < n
        invariant
            n == diffs@.len(),
            i <= n,
            forall|k: int| 0 <= k < i ==> match #[trigger] diffs@[k] {
                TableDiff::Create(t) => t.wf(),
                TableDiff::Drop(_) => true,
                TableDiff::Alter { previous, next, columns: _, indices } => previous.wf() && next.wf()
                    && index_diffs_wf(next, indices@),
            },
        decreases n - i,
    {
        let good = match &diffs[i] {
            TableDiff::Create(t) => table_ok(t),
            TableDiff::Drop(_) => true,
            TableDiff::Alter { previous, next, columns: _, indices } => {
                if !table_ok(previous) || !table_ok(next) {
                    false
                } else {
                    let m = indices.len();
                    let mut j: usize = 0;
                    let mut all = true;
                    while j < m
                        invariant
                            m == indices@.len(),
                            j <= m,
                            all == (forall|k: int| 0 <= k < j ==> match #[trigger] indices@[k] {
                                IndexDiff::Create(ix) => index_in(*next, ix),
                                IndexDiff::Alter { previous: _, next: nx } => index_in(*next, nx),
                                IndexDiff::Drop(_) => true,
                            }),
                        decreases m - j,
                    {
                        let here = match &indices[j] {
                            IndexDiff::Create(ix) => index_ok(next, ix),
                            IndexDiff::Alter { previous: _, next: nx } => index_ok(next, nx),
                            IndexDiff::Drop(_) => true,
                        };
                        if !here {
                            all = false;
                        }
                        j = j + 1;
                    }
                    all
                }
            },
        };
        if !good {
            return false;
        }
        i = i + 1;
    }
    true
}

/// `REMOVE TABLE <table>`.
fn remove_table_statement(table: &Table) -> (r: String)
    ensures
        r@ == spec_remove_table(*table),
{
    let mut out = String::new();
    out.append("REMOVE TABLE ");
    push_escaped_ident(&mut out, table.name.as_str());
    assert(out@ =~= spec_remove_table(*table));
    out
}

/// Generates the SurrealQL migration statements for a schema difference,
/// covering the changes that can be expressed safely for SCHEMALESS tables.
#[verifier::spinoff_prover]
pub fn generate(diff: &Vec<TableDiff>) -> (r: Vec<String>)
    requires
        table_diffs_wf(diff@),
    ensures
        views(r@) == spec_generate(diff@),
{
    let mut statements: Vec<String> = Vec::new();
    let n = diff.len();
    let mut i: usize = 0;
    assert(views(statements@) =~= render_table_changes(diff@.take(0)));
    while i < n
        invariant
            n == diff@.len(),
            i <= n,
            table_diffs_wf(diff@),
            views(statements@) == render_table_changes(diff@.take(i as int)),
        decreases n - i,
    {
        assert(diff@.take(i + 1).drop_last() =~= diff@.take(i as int));
        let ghost entry = diff@[i as int];
        match &diff[i] {
            TableDiff::Create(table) => {
                let defs = define_table_statements(table, false);
                append_all(&mut statements, defs);
            },
            TableDiff::Drop(table) => {
                let ghost before = statements@;
                let st = remove_table_statement(table);
                statements.push(st);
                assert(views(statements@) =~= views(before).push(st@));
            },
            TableDiff::Alter { previous, next, columns, indices } => {
                render_alter_table(previous, next, columns, indices, &mut statements);
            },
        }
        i = i + 1;
    }
    assert(diff@.take(n as int) =~= diff@);
    if statements.len() == 0 {
        let mut only = String::new();
        only.append("RETURN NONE");
        statements.push(only);
        assert(views(statements@) =~= seq!["RETURN NONE"@]);
    }
    statements
}

} // verus!
