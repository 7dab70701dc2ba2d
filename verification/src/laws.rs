//! Properties of the driver as a whole: what reads give back of writes, how
//! identifiers, migrations and pagination behave, and what a read-only
//! transaction refuses.

use vstd::prelude::*;
use crate::conn::{MigrationAction, MigrationStage, OperationKind, Route, admission, migration_next, all_digits, digit_value, digits_value, is_digit, spec_parse_u64, tracking_id_alias, tracking_row_id, unsigned_body, write_name};
use crate::error::ErrorKind;
use crate::expr::{BinaryOp, Expr, bound, bound_seq, column_literal, placeholder, pk_position, render_out, render_outs, spec_column_ref};
use crate::operation::sort_ref_text;
use crate::write::{Assignment, assignment_texts, create_only_texts, create_sql, params_before, shared_params_before, shared_texts, update_sql};
use crate::operation::delete_sql;
use crate::migration::{secondary_index_definitions, spec_define_index, spec_define_table_statements, spec_manual_guard, spec_remove_table};
use crate::schema::Index;
use crate::schema::Table;
use crate::text::spec_join;
use crate::migration::{TableDiff, spec_generate, spec_push_unique};
use crate::op::{Direction, Pagination, cursor_source, entry_from, keyset_sql};
use crate::record_id::scalar_key_is;
use crate::schema::{ColumnId, Scalar, StorageType, Type};
use crate::text::{spec_signed_decimal, Escape, digit_char, escape_char, escape_seq, spec_decimal, spec_escape_ident};
use crate::json::{Json, JsonNumber, float_finite, json_decodes, json_decodes_fields, json_decodes_seq, json_encodes, json_encodes_fields, json_encodes_seq, json_issue, json_issue_fields, json_issue_seq};
use crate::value::{Decimal, Number, RecordKey, SurValue, Value, decodable, decodes, encodes, pow10, spec_decimal_to_u64, storage_encodes, storage_ok};

verus! {

// ---------------------------------------------------------------------------
// Identifiers
// ---------------------------------------------------------------------------

/// Undoes backtick escaping, reading from the end: a doubled backtick is one
/// backtick, any other character stands for itself.
pub open spec fn unescape_backticks(s: Seq<char>) -> Seq<char>
    decreases s.len(),
{
    if s.len() == 0 {
        Seq::empty()
    } else if s.len() >= 2 && s.last() == '`' && s[s.len() - 2] == '`' {
        unescape_backticks(s.subrange(0, s.len() - 2)).push('`')
    } else {
        unescape_backticks(s.drop_last()).push(s.last())
    }
}

/// Every backtick of the text is half of a doubled pair: read from the end,
/// the text splits into doubled backticks and single other characters.
pub open spec fn backticks_paired(s: Seq<char>) -> bool
    decreases s.len(),
{
    if s.len() == 0 {
        true
    } else if s.last() == '`' {
        s.len() >= 2 && s[s.len() - 2] == '`' && backticks_paired(s.subrange(0, s.len() - 2))
    } else {
        backticks_paired(s.drop_last())
    }
}

/// An identifier is the name between two backticks, and what lies between
/// them has every backtick doubled (so no backtick inside can close the
/// identifier early) and reads back as the name when the doubling is undone.
pub proof fn lemma_escape_ident_unescapes(name: Seq<char>)
    ensures
        spec_escape_ident(name).len() >= 2,
        spec_escape_ident(name)[0] == '`',
        spec_escape_ident(name).last() == '`',
        backticks_paired(spec_escape_ident(name).subrange(1, spec_escape_ident(name).len() - 1)),
        unescape_backticks(spec_escape_ident(name).subrange(1, spec_escape_ident(name).len() - 1)) == name,
{
    let id = spec_escape_ident(name);
    assert(id.subrange(1, id.len() - 1) =~= escape_seq(Escape::Backtick, name));
    lemma_unescape_escape(name);
}

proof fn lemma_unescape_escape(a: Seq<char>)
    ensures
        unescape_backticks(escape_seq(Escape::Backtick, a)) == a,
        backticks_paired(escape_seq(Escape::Backtick, a)),
    decreases a.len(),
{
    if a.len() > 0 {
        lemma_unescape_escape(a.drop_last());
        let e = escape_seq(Escape::Backtick, a.drop_last());
        let s = escape_seq(Escape::Backtick, a);
        assert(s == e + escape_char(Escape::Backtick, a.last()));
        if a.last() == '`' {
            assert(s.subrange(0, s.len() - 2) =~= e);
        } else {
            assert(s.drop_last() =~= e);
        }
        assert(a.drop_last().push(a.last()) =~= a);
    }
}

/// Escaping keeps distinct names distinct: two names with the same
/// identifier are the same name.
pub proof fn lemma_escape_ident_injective(a: Seq<char>, b: Seq<char>)
    requires
        spec_escape_ident(a) == spec_escape_ident(b),
    ensures
        a == b,
{
    let ea = escape_seq(Escape::Backtick, a);
    let eb = escape_seq(Escape::Backtick, b);
    let ia = spec_escape_ident(a);
    assert(ia.subrange(1, ia.len() - 1) =~= ea);
    assert(spec_escape_ident(b).subrange(1, ia.len() - 1) =~= eb);
    lemma_unescape_escape(a);
    lemma_unescape_escape(b);
}

// ---------------------------------------------------------------------------
// Filters
// ---------------------------------------------------------------------------

/// Rendering composes: when each operand renders (numbering its parameters
/// after those of the operands before it), a conjunction, a disjunction, a
/// negation and a range test render as their operands' texts put together.
#[verifier::spinoff_prover]
pub proof fn lemma_render_composes(t: Table, a: Expr, b: Expr, c: Expr, es: Vec<Expr>, k: nat)
    requires
        es@ == seq![a, b],
        render_out(t, a, k) is Some,
        render_out(t, b, k + bound(t, a).len()) is Some,
        render_out(t, c, k + bound(t, a).len() + bound(t, b).len()) is Some,
    ensures
        ({
            let ra = render_out(t, a, k)->0;
            let rb = render_out(t, b, k + bound(t, a).len())->0;
            let rc = render_out(t, c, k + bound(t, a).len() + bound(t, b).len())->0;
            &&& render_out(t, Expr::And(es), k) == Some("("@ + ra + " AND "@ + rb + ")"@)
            &&& render_out(t, Expr::Or(es), k) == Some("("@ + ra + " OR "@ + rb + ")"@)
            &&& render_out(t, Expr::Not(Box::new(a)), k) == Some("!("@ + ra + ")"@)
            &&& render_out(t, Expr::Between { expr: Box::new(a), low: Box::new(b), high: Box::new(c) }, k)
                == Some("("@ + ra + " >= "@ + rb + " AND "@ + ra + " <= "@ + rc + ")"@)
        }),
{
    let xs = seq![a, b];
    let ra = render_out(t, a, k)->0;
    let rb = render_out(t, b, k + bound(t, a).len())->0;
    assert(xs.drop_last() =~= seq![a]);
    assert(seq![a].drop_last() =~= Seq::<Expr>::empty());
    assert(bound_seq(t, seq![a]) =~= bound(t, a));
    assert(render_outs(t, seq![a], k) == Some(seq![ra])) by {
        let e = Seq::<Expr>::empty();
        assert(render_outs(t, e, k) == Some(Seq::<Seq<char>>::empty()));
        assert(bound_seq(t, e).len() == 0);
        assert(seq![a].last() == a);
        assert(render_outs(t, seq![a].drop_last(), k) == Some(Seq::<Seq<char>>::empty()));
        assert(Seq::<Seq<char>>::empty().push(ra) =~= seq![ra]);
    }
    assert(render_outs(t, xs, k) == Some(seq![ra, rb])) by {
        assert(xs.last() == b);
        assert(seq![ra].push(rb) =~= seq![ra, rb]);
    }
    let parts = seq![ra, rb];
    assert(parts.drop_last() =~= seq![ra]);
    assert(spec_join(seq![ra], " AND "@) == ra);
    assert(spec_join(seq![ra], " OR "@) == ra);
    assert(spec_join(parts, " AND "@) == ra + " AND "@ + rb);
    assert(spec_join(parts, " OR "@) == ra + " OR "@ + rb);
}

/// Each comparison operator renders as its own SurrealQL symbol, between the
/// texts of its two operands: `=`, `!=`, `>=`, `>`, `<=`, `<`, `+`, `-`.
pub proof fn lemma_comparison_symbols(t: Table, op: BinaryOp, lhs: Expr, rhs: Expr, k: nat)
    requires
        render_out(t, lhs, k) is Some,
        render_out(t, rhs, k + bound(t, lhs).len()) is Some,
        column_literal(lhs, rhs) matches Some((c, v)) ==> storage_ok(t.col(c).storage_ty, v),
    ensures
        ({
            let ra = render_out(t, lhs, k)->0;
            let rb = render_out(t, rhs, k + bound(t, lhs).len())->0;
            let r = render_out(t, Expr::BinaryOp { op, lhs: Box::new(lhs), rhs: Box::new(rhs) }, k);
            &&& op == BinaryOp::Eq ==> r == Some(ra + " = "@ + rb)
            &&& op == BinaryOp::Ne ==> r == Some(ra + " != "@ + rb)
            &&& op == BinaryOp::Ge ==> r == Some(ra + " >= "@ + rb)
            &&& op == BinaryOp::Gt ==> r == Some(ra + " > "@ + rb)
            &&& op == BinaryOp::Le ==> r == Some(ra + " <= "@ + rb)
            &&& op == BinaryOp::Lt ==> r == Some(ra + " < "@ + rb)
            &&& op == BinaryOp::Add ==> r == Some(ra + " + "@ + rb)
            &&& op == BinaryOp::Sub ==> r == Some(ra + " - "@ + rb)
        }),
{
    reveal_strlit(" ");
    reveal_strlit("=");
    reveal_strlit(" = ");
    reveal_strlit("!=");
    reveal_strlit(" != ");
    reveal_strlit(">=");
    reveal_strlit(" >= ");
    reveal_strlit(">");
    reveal_strlit(" > ");
    reveal_strlit("<=");
    reveal_strlit(" <= ");
    reveal_strlit("<");
    reveal_strlit(" < ");
    reveal_strlit("+");
    reveal_strlit(" + ");
    reveal_strlit("-");
    reveal_strlit(" - ");
    let ra = render_out(t, lhs, k)->0;
    let rb = render_out(t, rhs, k + bound(t, lhs).len())->0;
    let r = render_out(t, Expr::BinaryOp { op, lhs: Box::new(lhs), rhs: Box::new(rhs) }, k);
    assert(r == Some(ra + (" "@ + crate::expr::sym(op) + " "@) + rb));
    assert(ra + " = "@ + rb =~= ra + (" "@ + "="@ + " "@) + rb);
    assert(ra + " != "@ + rb =~= ra + (" "@ + "!="@ + " "@) + rb);
    assert(ra + " >= "@ + rb =~= ra + (" "@ + ">="@ + " "@) + rb);
    assert(ra + " > "@ + rb =~= ra + (" "@ + ">"@ + " "@) + rb);
    assert(ra + " <= "@ + rb =~= ra + (" "@ + "<="@ + " "@) + rb);
    assert(ra + " < "@ + rb =~= ra + (" "@ + "<"@ + " "@) + rb);
    assert(ra + " + "@ + rb =~= ra + (" "@ + "+"@ + " "@) + rb);
    assert(ra + " - "@ + rb =~= ra + (" "@ + "-"@ + " "@) + rb);
}

/// A column (other than a key or boolean column) compared `>=` with a
/// literal renders as the escaped column name, ` >= `, and the literal's
/// placeholder.
pub proof fn lemma_column_at_least_literal(t: Table, c: usize, v: Value, k: nat)
    requires
        c < t.columns@.len(),
        !t.spec_is_primary_key(t.columns@[c as int].id),
        t.columns@[c as int].id.index == c,
        t.columns@[c as int].ty != Type::Scalar(Scalar::Bool),
        !(v is List),
        storage_ok(t.columns@[c as int].storage_ty, v),
    ensures
        render_out(
            t,
            Expr::BinaryOp {
                op: BinaryOp::Ge,
                lhs: Box::new(Expr::Reference(t.columns@[c as int].id)),
                rhs: Box::new(Expr::Value(v)),
            },
            k,
        ) == Some(spec_escape_ident(t.columns@[c as int].name@) + " >= "@ + "$p"@ + spec_decimal(k)),
{
    let id = t.columns@[c as int].id;
    assert(t.col(id) == t.columns@[c as int]);
    assert(bound(t, Expr::Reference(id)).len() == 0);
    assert(crate::value::encodable(v)) by {
        if t.col(id).storage_ty is Json {
        }
    }
    lemma_comparison_symbols(t, BinaryOp::Ge, Expr::Reference(id), Expr::Value(v), k);
}

/// The other filter forms render with their own SurrealQL keywords around
/// their operands' texts: `a IN b`, `= ANY` as `b CONTAINS a`,
/// `a CONTAINSALL b`, `a CONTAINSANY b`, `x IS NONE`, `array::len(x)`, and
/// a prefix test as `(a IS NOT NONE AND string::starts_with(a, b))`.
pub proof fn lemma_filter_forms(t: Table, a: Expr, b: Expr, k: nat)
    requires
        render_out(t, a, k) is Some,
        render_out(t, b, k + bound(t, a).len()) is Some,
        !(a is Reference || a is JsonExtract),
    ensures
        ({
            let ra = render_out(t, a, k)->0;
            let rb = render_out(t, b, k + bound(t, a).len())->0;
            &&& render_out(t, Expr::InList { expr: Box::new(a), list: Box::new(b) }, k) == Some(ra + " IN "@ + rb)
            &&& render_out(t, Expr::AnyOp { op: BinaryOp::Eq, lhs: Box::new(a), rhs: Box::new(b) }, k) == Some(
                rb + " CONTAINS "@ + ra,
            )
            &&& render_out(t, Expr::IsSuperset { lhs: Box::new(a), rhs: Box::new(b) }, k) == Some(
                ra + " CONTAINSALL "@ + rb,
            )
            &&& render_out(t, Expr::Intersects { lhs: Box::new(a), rhs: Box::new(b) }, k) == Some(
                ra + " CONTAINSANY "@ + rb,
            )
            &&& render_out(t, Expr::IsNull(Box::new(a)), k) == Some(ra + " IS NONE"@)
            &&& render_out(t, Expr::Length(Box::new(a)), k) == Some("array::len("@ + ra + ")"@)
            &&& render_out(t, Expr::StartsWith { expr: Box::new(a), prefix: Box::new(b) }, k) == Some(
                "("@ + ra + " IS NOT NONE AND string::starts_with("@ + ra + ", "@ + rb + "))"@,
            )
        }),
{
    let ra = render_out(t, a, k)->0;
    let rb = render_out(t, b, k + bound(t, a).len())->0;
    assert(ra + " IN "@ + rb =~= ra + " IN "@ + rb);
}

/// A cursor page with a resume key selects the sort key under its hidden
/// alias, resumes strictly after the key in the direction of the order
/// (`>` ascending, `<` descending), orders by the alias in that direction,
/// and limits to the page size.
#[verifier::spinoff_prover]
#[verifier::rlimit(40)]
pub proof fn lemma_cursor_page(
    name: Seq<char>,
    proj: Seq<char>,
    pred: Seq<char>,
    sort: Seq<char>,
    d: Direction,
    page_size: i64,
    cursor: Value,
    k: nat,
)
    ensures
        keyset_sql(name, proj, Some(pred), sort, true, Some(d), Some(Pagination::Cursor { page_size, after: Some(cursor) }), k)
            == "SELECT "@ + proj + ", "@ + sort + " AS "@ + "__toasty_sort_key"@ + " FROM "@ + name + " WHERE "@
            + pred + " AND "@ + sort + (if d == Direction::Desc {
            " < "@
        } else {
            " > "@
        }) + placeholder(k) + " ORDER BY "@ + "__toasty_sort_key"@ + (if d == Direction::Desc {
            " DESC"@
        } else {
            " ASC"@
        }) + " LIMIT "@ + spec_signed_decimal(page_size as int),
{
    let cur = Some(Pagination::Cursor { page_size, after: Some(cursor) });
    let after_op = if d == Direction::Desc { " < "@ } else { " > "@ };
    let dir = if d == Direction::Desc { " DESC"@ } else { " ASC"@ };
    let resume = sort + after_op + placeholder(k);
    let preds = seq![pred].push(resume);
    assert(crate::op::keyset_predicates(Some(pred), sort, Some(d), cur, k) == preds);
    assert(preds.drop_last() =~= seq![pred]);
    assert(preds.last() == resume);
    assert(seq![pred][0] == pred);
    assert(spec_join(seq![pred], " AND "@) == pred);
    assert(spec_join(preds, " AND "@) == spec_join(preds.drop_last(), " AND "@) + " AND "@ + preds.last());
    let w = crate::op::where_clause(preds);
    assert(w =~= " WHERE "@ + pred + " AND "@ + resume);
    let o = crate::op::order_clause(Some(d), true);
    assert(o == " ORDER BY "@ + "__toasty_sort_key"@ + dir);
    let pj = crate::op::keyset_projection(proj, sort, true);
    assert(pj == proj + ", "@ + sort + " AS "@ + "__toasty_sort_key"@);
    let x = keyset_sql(name, proj, Some(pred), sort, true, Some(d), cur, k);
    assert(x == "SELECT "@ + pj + " FROM "@ + name + w + o + " LIMIT "@ + spec_signed_decimal(page_size as int));
    assert(x =~= "SELECT "@ + proj + ", "@ + sort + " AS "@ + "__toasty_sort_key"@ + " FROM "@ + name + " WHERE "@
        + pred + " AND "@ + sort + after_op + placeholder(k) + " ORDER BY "@ + "__toasty_sort_key"@ + dir + " LIMIT "@
        + spec_signed_decimal(page_size as int));
}

/// An offset page keeps the projection as it is, applies no order, and ends
/// in `LIMIT l START o`.
#[verifier::spinoff_prover]
pub proof fn lemma_offset_page(name: Seq<char>, proj: Seq<char>, pred: Seq<char>, sort: Seq<char>, limit: i64, offset: i64, k: nat)
    ensures
        keyset_sql(name, proj, Some(pred), sort, true, None, Some(Pagination::Offset { limit, offset: Some(offset) }), k)
            == "SELECT "@ + proj + " FROM "@ + name + " WHERE "@ + pred + " LIMIT "@ + spec_signed_decimal(limit as int)
            + " START "@ + spec_signed_decimal(offset as int),
{
    let off = Some(Pagination::Offset { limit, offset: Some(offset) });
    assert(crate::op::effective_order(None, off) is None);
    assert(crate::op::keyset_predicates(Some(pred), sort, None, off, k) =~= seq![pred]);
    assert(spec_join(seq![pred], " AND "@) == pred);
    assert(keyset_sql(name, proj, Some(pred), sort, true, None, off, k) =~= "SELECT "@ + proj + " FROM "@ + name
        + " WHERE "@ + pred + " LIMIT "@ + spec_signed_decimal(limit as int) + " START "@ + spec_signed_decimal(
        offset as int,
    ));
}

// ---------------------------------------------------------------------------
// Writes
// ---------------------------------------------------------------------------

/// The `SET` item of each update assignment of a literal to column `c`
/// (escaped as `n`), whose parameter is `$p<k>` with `k` counting the
/// parameters of the assignments before it: a replacement is `n = $pk` (or
/// `n = NONE` for null), an addition `n = n + $pk`, a subtraction
/// `n = n - $pk`, an append `n += $pk`.
pub proof fn lemma_update_assignment_texts(t: Table, asg: Seq<(ColumnId, Assignment)>, i: int)
    requires
        0 <= i < asg.len(),
    ensures
        ({
            let n = spec_escape_ident(t.col(asg[i].0).name@);
            let p = "$p"@ + spec_decimal(params_before(asg.take(i)));
            let text = assignment_texts(t, asg)[i];
            &&& asg[i].1 matches Assignment::Replace(Expr::Value(v)) ==> text == (if v is Null {
                n + " = NONE"@
            } else {
                n + " = "@ + p
            })
            &&& asg[i].1 matches Assignment::Add(Expr::Value(_)) ==> text == n + " = "@ + n + " + "@ + p
            &&& asg[i].1 matches Assignment::Subtract(Expr::Value(_)) ==> text == n + " = "@ + n + " - "@ + p
            &&& asg[i].1 matches Assignment::Append(Expr::Value(_)) ==> text == n + " += "@ + p
        }),
{
}

/// The `SET` item of each shared upsert mutation of a literal to column `c`
/// (escaped as `n`), whose default is `$pk` and operand `$p(k+1)`: an
/// addition is `n = (n ?? $pk) + $p(k+1)`, a subtraction
/// `n = (n ?? $pk) - $p(k+1)`, an append `n = array::concat(n ?? $pk, $p(k+1))`.
pub proof fn lemma_shared_mutation_texts(t: Table, shared: Seq<(ColumnId, Assignment)>, m0: nat, i: int)
    requires
        0 <= i < shared.len(),
    ensures
        ({
            let n = spec_escape_ident(t.col(shared[i].0).name@);
            let k = m0 + shared_params_before(shared, i);
            let d = "$p"@ + spec_decimal(k);
            let x = "$p"@ + spec_decimal(k + 1);
            let text = shared_texts(t, shared, m0)[i];
            &&& shared[i].1 matches Assignment::Add(Expr::Value(_)) ==> text == n + " = ("@ + n + " ?? "@ + d
                + ") + "@ + x
            &&& shared[i].1 matches Assignment::Subtract(Expr::Value(_)) ==> text == n + " = ("@ + n + " ?? "@
                + d + ") - "@ + x
            &&& shared[i].1 matches Assignment::Append(Expr::Value(_)) ==> text == n + " = array::concat("@ + n
                + " ?? "@ + d + ", "@ + x + ")"@
        }),
{
}

/// The shape of the keyed write statements: an update sets its items on the
/// record and returns the row after the update when asked; a delete returns
/// the row before it (so what was deleted can be counted); a create writes
/// the content and returns the row after it when asked.
pub proof fn lemma_write_statement_shapes(sets: Seq<Seq<char>>, preds: Seq<Seq<char>>, returning: bool)
    requires
        sets.len() > 0,
        preds.len() > 0,
    ensures
        update_sql(sets, preds, returning) == "UPDATE $rid SET "@ + spec_join(sets, ", "@) + " WHERE "@ + spec_join(
            preds,
            " AND "@,
        ) + (if returning {
            " RETURN AFTER"@
        } else {
            ""@
        }),
        delete_sql(preds) == "DELETE $rid WHERE "@ + spec_join(preds, " AND "@) + " RETURN BEFORE"@,
        create_sql(returning) == (if returning {
            "CREATE $rid CONTENT $data RETURN AFTER"@
        } else {
            "CREATE $rid CONTENT $data"@
        }),
{
    reveal_strlit("UPDATE $rid");
    reveal_strlit(" SET ");
    reveal_strlit("UPDATE $rid SET ");
    reveal_strlit(" WHERE ");
    reveal_strlit("DELETE $rid");
    reveal_strlit("DELETE $rid WHERE ");
    reveal_strlit("CREATE $rid CONTENT $data");
    reveal_strlit(" RETURN AFTER");
    reveal_strlit("CREATE $rid CONTENT $data RETURN AFTER");
    reveal_strlit("");
    assert(update_sql(sets, preds, returning) =~= "UPDATE $rid SET "@ + spec_join(sets, ", "@) + " WHERE "@
        + spec_join(preds, " AND "@) + (if returning {
        " RETURN AFTER"@
    } else {
        ""@
    }));
    assert(delete_sql(preds) =~= "DELETE $rid WHERE "@ + spec_join(preds, " AND "@) + " RETURN BEFORE"@);
    assert(create_sql(returning) =~= (if returning {
        "CREATE $rid CONTENT $data RETURN AFTER"@
    } else {
        "CREATE $rid CONTENT $data"@
    }));
}

/// A create-only field of an upsert keeps an existing value and falls back
/// to the row's value: `n = n ?? $pj` for the `j`-th such field.
pub proof fn lemma_create_only_fallback(plan: Seq<(Seq<char>, Value, StorageType)>, j: int)
    requires
        0 <= j < plan.len(),
    ensures
        create_only_texts(plan)[j] == spec_escape_ident(plan[j].0) + " = "@ + spec_escape_ident(plan[j].0) + " ?? "@
            + "$p"@ + spec_decimal(j as nat),
{
}

// ---------------------------------------------------------------------------
// Index definitions and sort keys
// ---------------------------------------------------------------------------

/// Uniqueness is kept whatever the `IF NOT EXISTS` flag: the definition of a
/// unique index is that of the same index without uniqueness followed by
/// ` UNIQUE`, and the flag only inserts ` IF NOT EXISTS` after `DEFINE INDEX`.
pub proof fn lemma_unique_index_definition(t: Table, ix: Index, flag: bool)
    ensures
        ix.unique ==> spec_define_index(t, ix, flag) == spec_define_index(
            t,
            Index { name: ix.name, columns: ix.columns, unique: false, primary_key: ix.primary_key },
            flag,
        ) + " UNIQUE"@,
        spec_define_index(t, ix, true) == "DEFINE INDEX IF NOT EXISTS"@ + spec_define_index(t, ix, false).subrange(
            12,
            spec_define_index(t, ix, false).len() as int,
        ),
{
    reveal_strlit("DEFINE INDEX");
    reveal_strlit("DEFINE INDEX IF NOT EXISTS");
    reveal_strlit(" IF NOT EXISTS");
    let plain = Index { name: ix.name, columns: ix.columns, unique: false, primary_key: ix.primary_key };
    assert(ix.unique ==> spec_define_index(t, ix, flag) =~= spec_define_index(t, plain, flag) + " UNIQUE"@);
    let f = spec_define_index(t, ix, false);
    assert(f.subrange(0, 12) =~= "DEFINE INDEX"@);
    assert(spec_define_index(t, ix, true) =~= "DEFINE INDEX IF NOT EXISTS"@ + f.subrange(12, f.len() as int));
}

/// A table's definition is `DEFINE TABLE [IF NOT EXISTS] <name> SCHEMALESS`
/// followed by a definition of each index that is not the primary key (the
/// record id is the primary key) and of nothing else.
#[verifier::spinoff_prover]
#[verifier::rlimit(40)]
pub proof fn lemma_table_definition(t: Table, flag: bool)
    ensures
        spec_define_table_statements(t, flag)[0] == "DEFINE TABLE"@ + (if flag {
            " IF NOT EXISTS"@
        } else {
            ""@
        }) + " "@ + spec_escape_ident(t.name@) + " SCHEMALESS"@,
        forall|i: int|
            0 <= i < t.indices@.len() && !t.indices@[i].primary_key ==> spec_define_table_statements(t, flag).contains(
                #[trigger] spec_define_index(t, t.indices@[i], flag),
            ),
        forall|j: int|
            #![trigger spec_define_table_statements(t, flag)[j]]
            1 <= j < spec_define_table_statements(t, flag).len() ==> exists|i: int|
                #![trigger t.indices@[i]]
                0 <= i < t.indices@.len() && !t.indices@[i].primary_key && spec_define_table_statements(t, flag)[j]
                    == spec_define_index(t, t.indices@[i], flag),
{
    reveal_strlit("");
    let st = spec_define_table_statements(t, flag);
    let defs = secondary_index_definitions(t, t.indices@, flag);
    assert(st[0] == crate::migration::spec_define_table(t, flag));
    assert(crate::migration::spec_define_table(t, flag) =~= "DEFINE TABLE"@ + (if flag {
        " IF NOT EXISTS"@
    } else {
        ""@
    }) + " "@ + spec_escape_ident(t.name@) + " SCHEMALESS"@);
    lemma_secondary_definitions(t, t.indices@, flag);
    assert forall|i: int| 0 <= i < t.indices@.len() && !t.indices@[i].primary_key implies st.contains(
        #[trigger] spec_define_index(t, t.indices@[i], flag),
    ) by {
        let j = choose|j: int| 0 <= j < defs.len() && defs[j] == spec_define_index(t, t.indices@[i], flag);
        assert(st[j + 1] == defs[j]);
    }
    assert forall|j: int| #![trigger st[j]] 1 <= j < st.len() implies exists|i: int|
        #![trigger t.indices@[i]]
        0 <= i < t.indices@.len() && !t.indices@[i].primary_key && st[j] == spec_define_index(
            t,
            t.indices@[i],
            flag,
        ) by {
        assert(st[j] == defs[j - 1]);
        assert(0 <= j - 1 < defs.len());
        assert(exists|i: int| 0 <= i < t.indices@.len() && !t.indices@[i].primary_key && #[trigger] defs[j - 1]
            == spec_define_index(t, t.indices@[i], flag));
        let i = choose|i: int| 0 <= i < t.indices@.len() && !t.indices@[i].primary_key && #[trigger] defs[j - 1]
            == spec_define_index(t, t.indices@[i], flag);
        assert(0 <= i < t.indices@.len() && !t.indices@[i].primary_key && st[j] == spec_define_index(
            t,
            t.indices@[i],
            flag,
        ));
    }
}

proof fn lemma_secondary_definitions(t: Table, ixs: Seq<Index>, flag: bool)
    ensures
        forall|i: int|
            0 <= i < ixs.len() && !ixs[i].primary_key ==> exists|j: int|
                0 <= j < secondary_index_definitions(t, ixs, flag).len() && #[trigger] secondary_index_definitions(
                    t,
                    ixs,
                    flag,
                )[j] == spec_define_index(t, #[trigger] ixs[i], flag),
        forall|j: int|
            0 <= j < secondary_index_definitions(t, ixs, flag).len() ==> exists|i: int|
                0 <= i < ixs.len() && !ixs[i].primary_key && #[trigger] secondary_index_definitions(t, ixs, flag)[j]
                    == spec_define_index(t, ixs[i], flag),
    decreases ixs.len(),
{
    if ixs.len() > 0 {
        let prev = ixs.drop_last();
        lemma_secondary_definitions(t, prev, flag);
        let rest = secondary_index_definitions(t, prev, flag);
        let d = secondary_index_definitions(t, ixs, flag);
        assert forall|i: int| 0 <= i < ixs.len() && !ixs[i].primary_key implies exists|j: int|
            0 <= j < d.len() && #[trigger] d[j] == spec_define_index(t, #[trigger] ixs[i], flag) by {
            if i < ixs.len() - 1 {
                assert(ixs[i] == prev[i]);
                let j = choose|j: int| 0 <= j < rest.len() && #[trigger] rest[j] == spec_define_index(t, prev[i], flag);
                assert(d[j] == rest[j]);
            } else {
                assert(d[rest.len() as int] == spec_define_index(t, ixs[i], flag));
            }
        }
        assert forall|j: int| 0 <= j < d.len() implies exists|i: int|
            0 <= i < ixs.len() && !ixs[i].primary_key && #[trigger] d[j] == spec_define_index(t, ixs[i], flag) by {
            if j < rest.len() {
                assert(d[j] == rest[j]);
                let i = choose|i: int| 0 <= i < prev.len() && !prev[i].primary_key && #[trigger] rest[j]
                    == spec_define_index(t, prev[i], flag);
                assert(ixs[i] == prev[i]);
            } else {
                assert(d[j] == spec_define_index(t, ixs.last(), flag));
                assert(ixs[ixs.len() - 1] == ixs.last());
            }
        }
    }
}

/// Keyset pagination sorts on the last primary-key column (the local key of
/// a composite key): the record id itself for a one-column key, its last
/// element `record::id(id)[n-1]` for an `n`-column key whose last column
/// appears once, and the record id for a table without a key.
pub proof fn lemma_sort_key_is_the_last_key_column(t: Table)
    ensures
        t.primary_key@.len() > 0 ==> sort_ref_text(t) == spec_column_ref(t, t.primary_key@.last()),
        t.primary_key@.len() <= 1 ==> sort_ref_text(t) == "record::id(id)"@ || t.primary_key@.len() == 0,
        t.primary_key@.len() == 0 ==> sort_ref_text(t) == "id"@,
        (t.primary_key@.len() >= 2 && forall|q: int| 0 <= q < t.primary_key@.len() - 1 ==> t.primary_key@[q]
            != t.primary_key@.last()) ==> sort_ref_text(t) == "record::id(id)["@ + spec_decimal(
            (t.primary_key@.len() - 1) as nat,
        ) + "]"@,
{
    let pk = t.primary_key@;
    if pk.len() > 0 {
        assert(pk.contains(pk.last())) by {
            assert(pk[pk.len() - 1] == pk.last());
        }
        if pk.len() >= 2 && forall|q: int| 0 <= q < pk.len() - 1 ==> pk[q] != pk.last() {
            let p = pk_position(pk, pk.last());
            assert(0 <= pk.len() - 1 < pk.len() && pk[pk.len() - 1] == pk.last() && forall|q: int|
                0 <= q < pk.len() - 1 ==> pk[q] != pk.last());
            assert(p == pk.len() - 1);
        }
    }
}

// ---------------------------------------------------------------------------
// The value codec
// ---------------------------------------------------------------------------

/// `v` is a value of the column type `ty` that the codec carries exactly: a
/// boolean, integer, string, byte string or UUID of that type, or null.
pub open spec fn exact_scalar(v: Value, ty: Type) -> bool {
    match v {
        Value::Null => true,
        Value::Bool(_) => ty == Type::Scalar(Scalar::Bool),
        Value::I8(_) => ty == Type::Scalar(Scalar::I8),
        Value::I16(_) => ty == Type::Scalar(Scalar::I16),
        Value::I32(_) => ty == Type::Scalar(Scalar::I32),
        Value::I64(_) => ty == Type::Scalar(Scalar::I64),
        Value::U8(_) => ty == Type::Scalar(Scalar::U8),
        Value::U16(_) => ty == Type::Scalar(Scalar::U16),
        Value::U32(_) => ty == Type::Scalar(Scalar::U32),
        Value::U64(_) => ty == Type::Scalar(Scalar::U64),
        Value::String(_) => ty == Type::Scalar(Scalar::String),
        Value::Bytes(_) => ty == Type::Scalar(Scalar::Bytes),
        Value::Uuid(_) => ty == Type::Scalar(Scalar::Uuid),
        _ => false,
    }
}

/// What is written reads back: a value of its column's type, encoded for
/// binding, decodes (for that type) to the same value. A `u64` above
/// `i64::MAX` goes through a decimal and still comes back exactly.
pub proof fn lemma_codec_round_trip(v: Value, ty: Type, s: SurValue)
    requires
        exact_scalar(v, ty),
        encodes(v, s),
    ensures
        decodable(s, ty),
        decodes(s, ty, v),
{
    match v {
        Value::I8(x) => {
            assert((x as i64) as i8 == x) by (bit_vector);
        },
        Value::I16(x) => {
            assert((x as i64) as i16 == x) by (bit_vector);
        },
        Value::I32(x) => {
            assert((x as i64) as i32 == x) by (bit_vector);
        },
        Value::U8(x) => {
            assert((x as i64) as u8 == x) by (bit_vector);
        },
        Value::U16(x) => {
            assert((x as i64) as u16 == x) by (bit_vector);
        },
        Value::U32(x) => {
            assert((x as i64) as u32 == x) by (bit_vector);
        },
        Value::U64(x) => {
            if x <= i64::MAX {
                assert(x <= 0x7fff_ffff_ffff_ffffu64 ==> (x as i64) as u64 == x) by (bit_vector);
            } else {
                let d = Decimal { negative: false, magnitude: x as u128, scale: 0 };
                assert(pow10(0) == 1);
                assert(d.magnitude as nat == x as nat);
                assert(d.magnitude as nat / pow10(0) == x as nat);
                assert(spec_decimal_to_u64(d) == Some(x));
            }
        },
        _ => {},
    }
}

/// The native value a record key reads back as when a query projects it out
/// of the record id.
pub open spec fn key_native(k: RecordKey) -> SurValue {
    match k {
        RecordKey::Number(i) => SurValue::Number(Number::Int(i)),
        RecordKey::String(t) => SurValue::String(t),
        RecordKey::Uuid(u) => SurValue::Uuid(u),
        RecordKey::Array(xs) => SurValue::Array(xs),
        RecordKey::Other(t) => SurValue::Other(t),
    }
}

/// A single-column primary key reads back as written: the record key built
/// from a key value of the column's type, projected out of the record id,
/// decodes to that key value.
pub proof fn lemma_record_key_round_trip(v: Value, ty: Type, k: RecordKey)
    requires
        exact_scalar(v, ty),
        scalar_key_is(v, k),
    ensures
        decodable(key_native(k), ty),
        decodes(key_native(k), ty, v),
{
    match v {
        Value::I8(x) => {
            assert((x as i64) as i8 == x) by (bit_vector);
        },
        Value::I16(x) => {
            assert((x as i64) as i16 == x) by (bit_vector);
        },
        Value::I32(x) => {
            assert((x as i64) as i32 == x) by (bit_vector);
        },
        Value::U8(x) => {
            assert((x as i64) as u8 == x) by (bit_vector);
        },
        Value::U16(x) => {
            assert((x as i64) as u16 == x) by (bit_vector);
        },
        Value::U32(x) => {
            assert((x as i64) as u32 == x) by (bit_vector);
        },
        Value::U64(x) => {
            assert(x <= 0x7fff_ffff_ffff_ffffu64 ==> (x as i64) as u64 == x) by (bit_vector);
        },
        _ => {},
    }
}

/// A native JSON column keeps database null and JSON null apart: a database
/// null is written as `NONE` (which reads back as a database null), while
/// the JSON literal `null` is JSON content, read back as JSON text.
pub proof fn lemma_json_nulls_stay_apart(s: SurValue)
    requires
        storage_encodes(StorageType::Json, Value::Null, s),
    ensures
        s is Absent,
        json_issue(SurValue::Null) is None,
        json_issue(SurValue::Absent) is Some,
{
}


/// A JSON value whose every number is a non-negative integer, a negative
/// integer marked negative, or a finite float.
pub open spec fn plain_json(j: Json) -> bool
    decreases j, 1nat,
{
    match j {
        Json::Number(JsonNumber::PosInt(u)) => true,
        Json::Number(JsonNumber::NegInt(i)) => i < 0,
        Json::Number(JsonNumber::Float(f)) => float_finite(f),
        Json::Array(xs) => plain_json_seq(xs@),
        Json::Object(fs) => plain_json_fields(fs@),
        _ => true,
    }
}

/// Every element is plain JSON.
pub open spec fn plain_json_seq(xs: Seq<Json>) -> bool
    decreases xs, 0nat,
{
    xs.len() == 0 || (plain_json_seq(xs.drop_last()) && plain_json(xs.last()))
}

/// Every member value is plain JSON.
pub open spec fn plain_json_fields(fs: Seq<(String, Json)>) -> bool
    decreases fs, 0nat,
{
    fs.len() == 0 || (plain_json_fields(fs.drop_last()) && plain_json(fs.last().1))
}

/// What a native JSON column stores reads back as written: the native form
/// of a JSON value is valid JSON content and reads back as that same JSON
/// value, null members included, and an unsigned integer above `i64::MAX`
/// (stored as a decimal) included.
pub proof fn lemma_json_round_trip(j: Json, s: SurValue)
    requires
        plain_json(j),
        json_encodes(j, s),
    ensures
        json_issue(s) is None,
        json_decodes(s, j),
    decreases j, 1nat,
{
    match j {
        Json::Number(JsonNumber::PosInt(u)) => {
            assert(u <= 0x7fff_ffff_ffff_ffffu64 ==> (u as i64) as u64 == u) by (bit_vector);
            assert(u <= 0x7fff_ffff_ffff_ffffu64 ==> (u as i64) >= 0) by (bit_vector);
            assert(((u as u128) as u64) == u) by (bit_vector);
        },
        Json::Array(xs) => {
            let ys = s->Array_0;
            assert(decreases_to!(j => xs));
            assert(decreases_to!(xs => xs@));
            lemma_json_round_trip_seq(xs@, ys@);
        },
        Json::Object(fs) => {
            let gs = s->Object_0;
            assert(decreases_to!(j => fs));
            assert(decreases_to!(fs => fs@));
            lemma_json_round_trip_fields(fs@, gs@);
        },
        _ => {},
    }
}

proof fn lemma_json_round_trip_seq(xs: Seq<Json>, ys: Seq<SurValue>)
    requires
        plain_json_seq(xs),
        json_encodes_seq(xs, ys),
    ensures
        json_issue_seq(ys) is None,
        json_decodes_seq(ys, xs),
    decreases xs, 0nat,
{
    if xs.len() > 0 {
        lemma_json_round_trip_seq(xs.drop_last(), ys.drop_last());
        assert(decreases_to!(xs => xs[xs.len() - 1]));
        lemma_json_round_trip(xs.last(), ys.last());
    }
}

proof fn lemma_json_round_trip_fields(fs: Seq<(String, Json)>, gs: Seq<(String, SurValue)>)
    requires
        plain_json_fields(fs),
        json_encodes_fields(fs, gs),
    ensures
        json_issue_fields(gs) is None,
        json_decodes_fields(gs, fs),
    decreases fs, 0nat,
{
    if fs.len() > 0 {
        lemma_json_round_trip_fields(fs.drop_last(), gs.drop_last());
        assert(decreases_to!(fs => fs[fs.len() - 1]));
        assert(decreases_to!(fs[fs.len() - 1] => fs[fs.len() - 1].1));
        lemma_json_round_trip(fs.last().1, gs.last().1);
    }
}

// ---------------------------------------------------------------------------
// Migrations
// ---------------------------------------------------------------------------

/// A generated migration always has a statement, so that it can be tracked
/// as applied even when no physical change is needed.
pub proof fn lemma_generate_never_empty(ds: Seq<TableDiff>)
    ensures
        spec_generate(ds).len() > 0,
{
}

/// A recorded migration id reads back as itself: the tracking record's key
/// is the id's decimal text, and a tracking row whose id field holds that
/// text reads back as the id, `u64::MAX` included.
pub proof fn lemma_migration_id_round_trip(id: u64)
    ensures
        spec_parse_u64(spec_decimal(id as nat)) == Some(id),
        forall|fs: Vec<(String, SurValue)>, t: String|
            #![trigger tracking_row_id(SurValue::Object(fs)), t@]
            entry_from(fs@, tracking_id_alias(), 0) == Some(SurValue::String(t)) && t@ == spec_decimal(id as nat)
                ==> tracking_row_id(SurValue::Object(fs)) == Some(id),
{
    lemma_decimal_digits(id as nat);
}

proof fn lemma_digit_char(d: int)
    requires
        0 <= d < 10,
    ensures
        is_digit(digit_char(d)),
        digit_value(digit_char(d)) == d,
{
    if d == 0 {} else if d == 1 {} else if d == 2 {} else if d == 3 {} else if d == 4 {}
    else if d == 5 {} else if d == 6 {} else if d == 7 {} else if d == 8 {} else {}
}

proof fn lemma_decimal_digits(n: nat)
    ensures
        spec_decimal(n).len() > 0,
        all_digits(spec_decimal(n)),
        digits_value(spec_decimal(n)) == n,
        unsigned_body(spec_decimal(n)) == spec_decimal(n),
    decreases n,
{
    let s = spec_decimal(n);
    if n < 10 {
        lemma_digit_char(n as int);
        assert(s.drop_last() =~= Seq::<char>::empty());
        assert(s.last() == digit_char(n as int));
        assert(digits_value(s.drop_last()) == 0);
        assert(is_digit(s[0]));
    } else {
        lemma_decimal_digits(n / 10);
        lemma_digit_char((n % 10) as int);
        let p = spec_decimal(n / 10);
        assert(s.drop_last() =~= p);
        assert(s.last() == digit_char((n % 10) as int));
        assert(digits_value(s) == digits_value(p) * 10 + digit_value(s.last()));
        assert((n / 10) * 10 + n % 10 == n) by (nonlinear_arith);
        assert forall|i: int| 0 <= i < s.len() implies #[trigger] is_digit(s[i]) by {
            if i < p.len() {
                assert(s[i] == p[i]);
            }
        }
    }
    assert(is_digit(s[0]));
    assert(unsigned_body(s) == s);
}

/// A failed migration is rolled back: a failure of a statement or of the
/// tracking record cancels the transaction; the commit comes only right
/// after the tracking record was written, and the tracking record only once
/// the last runnable statement succeeded (or right after the transaction
/// opened, when there is none).
pub proof fn lemma_failed_migration_is_cancelled(runnable: Seq<usize>, stage: MigrationStage, ok: bool)
    ensures
        (stage is Statement || stage is Record) && !ok ==> migration_next(runnable, stage, ok)
            == MigrationAction::Cancel,
        migration_next(runnable, stage, ok) == MigrationAction::Commit ==> stage == MigrationStage::Record && ok,
        migration_next(runnable, stage, ok) == MigrationAction::Succeed ==> stage == MigrationStage::Commit && ok,
        migration_next(runnable, stage, ok) == MigrationAction::Record ==> ok && ((stage == MigrationStage::Begin
            && runnable.len() == 0) || (stage matches MigrationStage::Statement(k) && k + 1 >= runnable.len())),
{
}

/// The sequence holds no statement twice.
pub open spec fn no_duplicates(s: Seq<Seq<char>>) -> bool {
    forall|i: int, j: int| 0 <= i < j < s.len() ==> s[i] != s[j]
}

/// Adding a statement the unique way keeps a statement list free of
/// duplicates, and the statement is then in the list.
pub proof fn lemma_push_unique_keeps_statements_distinct(s: Seq<Seq<char>>, x: Seq<char>)
    requires
        no_duplicates(s),
    ensures
        no_duplicates(spec_push_unique(s, x)),
        spec_push_unique(s, x).contains(x),
{
    if !s.contains(x) {
        let t = s.push(x);
        assert(t[s.len() as int] == x);
        assert forall|i: int, j: int| 0 <= i < j < t.len() implies t[i] != t[j] by {
            if j == s.len() {
                assert(t[i] == s[i]);
            }
        }
    }
}

// ---------------------------------------------------------------------------
// Pagination
// ---------------------------------------------------------------------------

/// A short page is the last one: cursor pagination offers a next cursor only
/// when the page came back full (for a page size the platform's `usize`
/// holds).
pub proof fn lemma_short_page_has_no_cursor(rows: Seq<SurValue>, page_size: i64, after: Option<Value>, has_sort: bool)
    requires
        0 <= rows.len() < page_size,
        page_size <= usize::MAX,
    ensures
        cursor_source(rows, Some(Pagination::Cursor { page_size, after }), has_sort) is None,
{
    assert(page_size as usize == page_size);
}

// ---------------------------------------------------------------------------
// Read-only transactions
// ---------------------------------------------------------------------------

/// A read-only transaction refuses every write (and nothing else that a
/// writable connection admits): reads are routed as usual.
pub proof fn lemma_read_only_refuses_exactly_writes(op: OperationKind)
    ensures
        write_name(op) is Some ==> (admission(op, true) matches Err((k, _)) && k
            == ErrorKind::ReadOnlyTransaction),
        write_name(op) is None ==> admission(op, true) == admission(op, false),
        admission(OperationKind::GetByKey, true) == Ok::<Route, (ErrorKind, Seq<char>)>(Route::GetByKey),
{
}

} // verus!
