//! Translation of Toasty filter expressions into SurrealQL predicate text.
//!
//! Column references become SurrealQL field references and literals become
//! bound parameters `$p0`, `$p1`, … collected in [`Binds`]. SurrealDB keeps a
//! row's primary key only in its record id, so a primary-key column is
//! referenced through `record::id(id)` (indexed for a composite key).

use vstd::prelude::*;
use crate::error::{DriverError, ErrorKind};
use crate::schema::{Column, ColumnId, Scalar, StorageType, Table, Type};
use crate::text::{push_char, push_decimal, push_escaped_ident_str, spec_decimal, spec_escape_ident, spec_join, views, join};
use crate::value::{SurValue, Value, encodable, encodable_seq, encode_fault, encode_fault_seq, encodes, storage_encodes, storage_error_kind, storage_fault, storage_ok, to_surreal, to_surreal_for_storage};

verus! {

/// A binary operator of a filter expression.
#[derive(Clone, Copy, PartialEq, Eq, Structural, Debug)]
pub enum BinaryOp {
    Eq,
    Ne,
    Ge,
    Gt,
    Le,
    Lt,
    Add,
    Sub,
}

/// A filter expression over the columns of one table.
#[derive(Debug)]
pub enum Expr {
    BinaryOp { op: BinaryOp, lhs: Box<Expr>, rhs: Box<Expr> },
    And(Vec<Expr>),
    Or(Vec<Expr>),
    Not(Box<Expr>),
    IsNull(Box<Expr>),
    Between { expr: Box<Expr>, low: Box<Expr>, high: Box<Expr> },
    InList { expr: Box<Expr>, list: Box<Expr> },
    /// `lhs <op> ANY(rhs)`.
    AnyOp { op: BinaryOp, lhs: Box<Expr>, rhs: Box<Expr> },
    IsSuperset { lhs: Box<Expr>, rhs: Box<Expr> },
    Intersects { lhs: Box<Expr>, rhs: Box<Expr> },
    Length(Box<Expr>),
    StartsWith { expr: Box<Expr>, prefix: Box<Expr> },
    /// A path into a document column.
    JsonExtract { base: Box<Expr>, path: Vec<String> },
    /// A resolved column of the target table.
    Reference(ColumnId),
    Value(Value),
    List(Vec<Expr>),
    /// An expression kind the driver cannot translate, by its description.
    Other(String),
}

/// The bound parameters of a statement, in order: `(name, value)`.
pub struct Binds {
    pub values: Vec<(String, SurValue)>,
}

/// `$p<i>`, the placeholder of the `i`-th positional parameter.
pub open spec fn placeholder(i: nat) -> Seq<char> {
    "$p"@ + spec_decimal(i)
}

/// A literal an expression binds: its value and, for a literal compared with
/// a column, the column's storage type, so that a native JSON column is
/// compared with the JSON value that JSON text denotes.
pub struct Literal {
    pub value: Value,
    pub storage: Option<StorageType>,
}

/// A literal bound on its own, with no column to compare with.
pub open spec fn plain(v: Value) -> Literal {
    Literal { value: v, storage: None }
}

/// The literals of a list of values bound on their own.
pub open spec fn plain_seq(vs: Seq<Value>) -> Seq<Literal> {
    vs.map_values(|v: Value| plain(v))
}

/// `s` is the parameter a literal binds: its encoding for the compared
/// column's storage type, or its native encoding.
pub open spec fn literal_encodes(l: Literal, s: SurValue) -> bool {
    match l.storage {
        Some(st) => storage_encodes(st, l.value, s),
        None => encodes(l.value, s),
    }
}

/// `new` extends `old` by one positional parameter per literal of `vals`,
/// named after its position and holding the literal's encoding.
pub open spec fn binds_extend(old: Seq<(String, SurValue)>, new: Seq<(String, SurValue)>, vals: Seq<Literal>) -> bool {
    &&& new.len() == old.len() + vals.len()
    &&& new.take(old.len() as int) == old
    &&& forall|j: int|
        #![trigger new[old.len() + j]]
        0 <= j < vals.len() ==> {
            &&& new[old.len() + j].0@ == "p"@ + spec_decimal((old.len() + j) as nat)
            &&& literal_encodes(vals[j], new[old.len() + j].1)
        }
}

/// The kinds a failed rendering reports: an untranslatable expression or
/// literal, or JSON text compared with a native JSON column that does not
/// parse.
pub open spec fn render_error(kind: ErrorKind) -> bool {
    kind == ErrorKind::UnsupportedFeature || kind == ErrorKind::SerializationFailure
}

proof fn lemma_binds_extend_trans(a: Seq<(String, SurValue)>, b: Seq<(String, SurValue)>, c: Seq<(String, SurValue)>, v1: Seq<Literal>, v2: Seq<Literal>)
    requires
        binds_extend(a, b, v1),
        binds_extend(b, c, v2),
    ensures
        binds_extend(a, c, v1 + v2),
{
    assert(c.take(a.len() as int) =~= c.take(b.len() as int).take(a.len() as int));
    assert forall|j: int| 0 <= j < (v1 + v2).len() implies {
        &&& #[trigger] c[a.len() + j].0@ == "p"@ + spec_decimal((a.len() + j) as nat)
        &&& literal_encodes((v1 + v2)[j], c[a.len() + j].1)
    } by {
        if j < v1.len() {
            assert(c[a.len() + j] == c.take(b.len() as int)[a.len() + j]);
            assert(b[a.len() + j].0@ == "p"@ + spec_decimal((a.len() + j) as nat));
        } else {
            let j2 = j - v1.len();
            assert(c[b.len() + j2].0@ == "p"@ + spec_decimal((b.len() + j2) as nat));
        }
    }
}

proof fn lemma_binds_extend_refl(a: Seq<(String, SurValue)>)
    ensures
        binds_extend(a, a, Seq::empty()),
{
    assert(a.take(a.len() as int) =~= a);
}

impl Binds {
    /// No parameters.
    pub fn new() -> (r: Binds)
        ensures
            r.values@.len() == 0,
    {
        Binds { values: Vec::new() }
    }

    /// Registers a value and returns its `$pN` placeholder, `N` being the
    /// number of parameters registered before it, so that the text and the
    /// parameter list stay in lockstep.
    pub fn push(&mut self, value: SurValue) -> (r: String)
        ensures
            r@ == placeholder(old(self).values@.len()),
            final(self).values@ == old(self).values@.push(
                (final(self).values@.last().0, value),
            ),
            final(self).values@.last().0@ == "p"@ + spec_decimal(old(self).values@.len()),
    {
        let mut name = String::new();
        name.append("p");
        push_decimal(&mut name, self.values.len() as u64);
        let mut placeholder_text = String::new();
        placeholder_text.append("$p");
        push_decimal(&mut placeholder_text, self.values.len() as u64);
        assert(placeholder_text@ =~= placeholder(self.values@.len()));
        self.values.push((name, value));
        placeholder_text
    }

    /// Registers a value under an explicit parameter name (without the `$`),
    /// for parameters the text references by a fixed name such as `$rid`.
    pub fn push_named(&mut self, name: &str, value: SurValue)
        ensures
            final(self).values@.len() == old(self).values@.len() + 1,
            final(self).values@.take(old(self).values@.len() as int) == old(self).values@,
            final(self).values@.last().0@ == name@,
            final(self).values@.last().1 == value,
    {
        let ghost before = self.values@;
        self.values.push((name.to_owned(), value));
        assert(self.values@.take(before.len() as int) =~= before);
    }

    /// The accumulated `(name, value)` parameters.
    pub fn into_vec(self) -> (r: Vec<(String, SurValue)>)
        ensures
            r@ == self.values@,
    {
        self.values
    }
}

// ---------------------------------------------------------------------------
// Column references
// ---------------------------------------------------------------------------

/// The position of the first primary-key slot holding `id`.
pub open spec fn pk_position(pk: Seq<ColumnId>, id: ColumnId) -> int {
    choose|p: int| 0 <= p < pk.len() && pk[p] == id && forall|q: int| 0 <= q < p ==> pk[q] != id
}

/// The SurrealQL reference for a column: a primary-key column lives in the
/// record id (indexed by its key position for a composite key); any other
/// column is its escaped name.
pub open spec fn spec_column_ref(t: Table, id: ColumnId) -> Seq<char> {
    if t.spec_is_primary_key(id) {
        if t.primary_key@.len() <= 1 {
            "record::id(id)"@
        } else {
            "record::id(id)["@ + spec_decimal(pk_position(t.primary_key@, id) as nat) + "]"@
        }
    } else {
        spec_escape_ident(t.col(id).name@)
    }
}

/// Binding nothing extends the binds by nothing.
pub proof fn lemma_binds_extend_refl_pub(a: Seq<(String, SurValue)>)
    ensures
        binds_extend(a, a, Seq::empty()),
{
    lemma_binds_extend_refl(a);
}

/// Extensions compose: binding `v1` then `v2` binds `v1 + v2`.
pub proof fn lemma_binds_extend_trans_pub(a: Seq<(String, SurValue)>, b: Seq<(String, SurValue)>, c: Seq<(String, SurValue)>, v1: Seq<Literal>, v2: Seq<Literal>)
    requires
        binds_extend(a, b, v1),
        binds_extend(b, c, v2),
    ensures
        binds_extend(a, c, v1 + v2),
{
    lemma_binds_extend_trans(a, b, c, v1, v2);
}

/// Renders the SurrealQL reference for a column of `table`.
pub fn column_ref(table: &Table, id: ColumnId) -> (r: String)
    requires
        id.index < table.columns@.len(),
    ensures
        r@ == spec_column_ref(*table, id),
{
    match table.primary_key_position(id) {
        Some(pos) => {
            let mut out = String::new();
            if table.primary_key.len() <= 1 {
                out.append("record::id(id)");
                assert(out@ =~= spec_column_ref(*table, id));
            } else {
                out.append("record::id(id)[");
                push_decimal(&mut out, pos as u64);
                out.append("]");
                assert(table.primary_key@.contains(id));
                let ghost p = pk_position(table.primary_key@, id);
                assert(p == pos) by {
                    if p < pos {
                        assert(table.primary_key@[p] != id);
                    } else if p > pos {
                    }
                }
                assert(out@ =~= spec_column_ref(*table, id));
            }
            out
        },
        None => {
            let mut out = String::new();
            push_escaped_ident_str(&mut out, table.columns[id.index].name.as_str());
            assert(out@ =~= spec_column_ref(*table, id));
            out
        },
    }
}

// ---------------------------------------------------------------------------
// Predicates
// ---------------------------------------------------------------------------

/// The SurrealQL symbol of a binary operator.
pub open spec fn sym(op: BinaryOp) -> Seq<char> {
    match op {
        BinaryOp::Eq => "="@,
        BinaryOp::Ne => "!="@,
        BinaryOp::Ge => ">="@,
        BinaryOp::Gt => ">"@,
        BinaryOp::Le => "<="@,
        BinaryOp::Lt => "<"@,
        BinaryOp::Add => "+"@,
        BinaryOp::Sub => "-"@,
    }
}

fn op_symbol(op: BinaryOp) -> (r: &'static str)
    ensures
        r@ == sym(op),
{
    match op {
        BinaryOp::Eq => "=",
        BinaryOp::Ne => "!=",
        BinaryOp::Ge => ">=",
        BinaryOp::Gt => ">",
        BinaryOp::Le => "<=",
        BinaryOp::Lt => "<",
        BinaryOp::Add => "+",
        BinaryOp::Sub => "-",
    }
}

/// Every column reference in the expression designates a column of `t`.
pub open spec fn refs_valid(t: Table, e: Expr) -> bool
    decreases e, 1nat,
{
    match e {
        Expr::BinaryOp { op: _, lhs, rhs } => refs_valid(t, *lhs) && refs_valid(t, *rhs),
        Expr::And(es) => refs_valid_seq(t, es@),
        Expr::Or(es) => refs_valid_seq(t, es@),
        Expr::List(es) => refs_valid_seq(t, es@),
        Expr::Not(x) => refs_valid(t, *x),
        Expr::IsNull(x) => refs_valid(t, *x),
        Expr::Length(x) => refs_valid(t, *x),
        Expr::Between { expr, low, high } => refs_valid(t, *expr) && refs_valid(t, *low) && refs_valid(t, *high),
        Expr::InList { expr, list } => refs_valid(t, *expr) && refs_valid(t, *list),
        Expr::AnyOp { op: _, lhs, rhs } => refs_valid(t, *lhs) && refs_valid(t, *rhs),
        Expr::IsSuperset { lhs, rhs } => refs_valid(t, *lhs) && refs_valid(t, *rhs),
        Expr::Intersects { lhs, rhs } => refs_valid(t, *lhs) && refs_valid(t, *rhs),
        Expr::StartsWith { expr, prefix } => refs_valid(t, *expr) && refs_valid(t, *prefix),
        Expr::JsonExtract { base, path: _ } => refs_valid(t, *base),
        Expr::Reference(id) => id.index < t.columns@.len(),
        _ => true,
    }
}

/// Every expression of the sequence has valid references.
pub open spec fn refs_valid_seq(t: Table, es: Seq<Expr>) -> bool
    decreases es, 0nat,
{
    es.len() == 0 || (refs_valid_seq(t, es.drop_last()) && refs_valid(t, es.last()))
}

/// Whether every column reference in the expression designates a column of
/// the table.
pub fn refs_ok(table: &Table, e: &Expr) -> (r: bool)
    ensures
        r == refs_valid(*table, *e),
    decreases e, 1nat,
{
    proof {
        match e {
            Expr::BinaryOp { op: _, lhs, rhs } | Expr::AnyOp { op: _, lhs, rhs } | Expr::IsSuperset { lhs, rhs }
            | Expr::Intersects { lhs, rhs } => {
                assert(decreases_to!(*e => **lhs));
                assert(decreases_to!(*e => **rhs));
            },
            _ => {},
        }
    }
    match e {
        Expr::BinaryOp { op: _, lhs, rhs } | Expr::AnyOp { op: _, lhs, rhs } | Expr::IsSuperset { lhs, rhs }
        | Expr::Intersects { lhs, rhs } => refs_ok(table, lhs) && refs_ok(table, rhs),
        Expr::And(es) | Expr::Or(es) | Expr::List(es) => refs_ok_seq(table, es, Ghost(*e)),
        Expr::Not(x) | Expr::IsNull(x) | Expr::Length(x) => refs_ok(table, x),
        Expr::Between { expr, low, high } => refs_ok(table, expr) && refs_ok(table, low) && refs_ok(table, high),
        Expr::InList { expr, list } => refs_ok(table, expr) && refs_ok(table, list),
        Expr::StartsWith { expr, prefix } => refs_ok(table, expr) && refs_ok(table, prefix),
        Expr::JsonExtract { base, path: _ } => refs_ok(table, base),
        Expr::Reference(id) => id.index < table.columns.len(),
        _ => true,
    }
}

/// Whether every expression of the list has valid references.
fn refs_ok_seq(table: &Table, es: &Vec<Expr>, Ghost(whole): Ghost<Expr>) -> (r: bool)
    requires
        (whole matches Expr::And(v) && v@ == es@) || (whole matches Expr::Or(v) && v@ == es@) || (
        whole matches Expr::List(v) && v@ == es@),
    ensures
        r == refs_valid_seq(*table, es@),
    decreases whole, 0nat,
{
    proof {
        assert forall|k: int| 0 <= k < es@.len() implies decreases_to!(whole => es@[k]) by {
            let v = match whole {
                Expr::And(v) => v,
                Expr::Or(v) => v,
                Expr::List(v) => v,
                _ => arbitrary(),
            };
            assert(decreases_to!(whole => v));
            assert(decreases_to!(v => v@));
            assert(decreases_to!(v@ => v@[k]));
        }
    }
    let n = es.len();
    let mut i: usize = 0;
    while i < n
        invariant
            n == es@.len(),
            i <= n,
            forall|k: int| 0 <= k < es@.len() ==> decreases_to!(whole => es@[k]),
            refs_valid_seq(*table, es@.take(i as int)),
        decreases n - i,
    {
        assert(es@.take(i + 1).drop_last() =~= es@.take(i as int));
        assert(es@.take(i + 1).last() == es@[i as int]);
        if !refs_ok(table, &es[i]) {
            proof {
                lemma_refs_valid_seq_fails(*table, es@, i as int + 1, n as int);
                assert(es@.take(n as int) =~= es@);
            }
            return false;
        }
        i = i + 1;
    }
    assert(es@.take(n as int) =~= es@);
    true
}

proof fn lemma_refs_valid_seq_fails(t: Table, es: Seq<Expr>, i: int, n: int)
    requires
        0 < i <= n <= es.len(),
        !refs_valid_seq(t, es.take(i)),
    ensures
        !refs_valid_seq(t, es.take(n)),
    decreases n - i,
{
    if i < n {
        assert(es.take(i + 1).drop_last() =~= es.take(i));
        lemma_refs_valid_seq_fails(t, es, i + 1, n);
    }
}

/// The column and literal of a comparison between a column and a literal
/// that is not a list, if the operands are those.
pub open spec fn column_literal(lhs: Expr, rhs: Expr) -> Option<(ColumnId, Value)> {
    match (lhs, rhs) {
        (Expr::Reference(c), Expr::Value(v)) => if v is List {
            None
        } else {
            Some((c, v))
        },
        (Expr::Value(v), Expr::Reference(c)) => if v is List {
            None
        } else {
            Some((c, v))
        },
        _ => None,
    }
}

/// The literals an expression binds, in order. A literal compared with a
/// column is bound for the column's storage type.
pub open spec fn bound(t: Table, e: Expr) -> Seq<Literal>
    decreases e, 1nat,
{
    match e {
        Expr::BinaryOp { op: _, lhs, rhs } => match column_literal(*lhs, *rhs) {
            Some((c, v)) => seq![Literal { value: v, storage: Some(t.col(c).storage_ty) }],
            None => bound(t, *lhs) + bound(t, *rhs),
        },
        Expr::And(es) => bound_seq(t, es@),
        Expr::Or(es) => bound_seq(t, es@),
        Expr::List(es) => bound_seq(t, es@),
        Expr::Not(x) => bound(t, *x),
        Expr::Length(x) => bound(t, *x),
        Expr::IsNull(x) => match *x {
            Expr::Reference(_) => Seq::empty(),
            Expr::JsonExtract { base: _, path: _ } => Seq::empty(),
            _ => bound(t, *x),
        },
        Expr::Between { expr, low, high } => bound(t, *expr) + bound(t, *low) + bound(t, *high),
        Expr::InList { expr, list } => bound(t, *expr) + bound(t, *list),
        Expr::AnyOp { op: _, lhs, rhs } => bound(t, *lhs) + bound(t, *rhs),
        Expr::IsSuperset { lhs, rhs } => bound(t, *lhs) + bound(t, *rhs),
        Expr::Intersects { lhs, rhs } => bound(t, *lhs) + bound(t, *rhs),
        Expr::StartsWith { expr, prefix } => bound(t, *expr) + bound(t, *prefix),
        Expr::Value(v) => value_bound(v),
        _ => Seq::empty(),
    }
}

/// The literals a literal value binds on its own: one per item of a list,
/// or the value itself.
pub open spec fn value_bound(v: Value) -> Seq<Literal> {
    match v {
        Value::List(items) => plain_seq(items@),
        _ => seq![plain(v)],
    }
}

/// The literals a sequence of expressions binds, in order.
pub open spec fn bound_seq(t: Table, es: Seq<Expr>) -> Seq<Literal>
    decreases es, 0nat,
{
    if es.len() == 0 {
        Seq::empty()
    } else {
        bound_seq(t, es.drop_last()) + bound(t, es.last())
    }
}

/// The placeholders `$p<k>`, …, `$p<k + n - 1>`.
pub open spec fn placeholders(k: nat, n: nat) -> Seq<Seq<char>> {
    Seq::new(n, |j: int| placeholder(k + j as nat))
}

/// `.<segment>` for every path segment, escaped.
pub open spec fn path_suffix(path: Seq<String>) -> Seq<char>
    decreases path.len(),
{
    if path.len() == 0 {
        Seq::empty()
    } else {
        path_suffix(path.drop_last()) + "."@ + spec_escape_ident(path.last()@)
    }
}

/// A document path: the base column reference (or, unusually, the base
/// rendered on its own, falling back to `id`) followed by the dotted path.
pub open spec fn document_path_text(t: Table, base: Expr, path: Seq<String>) -> Seq<char>
    decreases base, 2nat,
{
    (match base {
        Expr::Reference(id) => spec_column_ref(t, id),
        _ => match render_out(t, base, 0) {
            Some(x) => x,
            None => "id"@,
        },
    }) + path_suffix(path)
}

/// Joins two optional texts around a separator.
pub open spec fn join2(a: Option<Seq<char>>, mid: Seq<char>, b: Option<Seq<char>>) -> Option<Seq<char>> {
    match (a, b) {
        (Some(x), Some(y)) => Some(x + mid + y),
        _ => None,
    }
}

/// The predicate text of an expression whose first literal gets placeholder
/// number `k`, or `None` when it cannot be translated.
pub open spec fn render_out(t: Table, e: Expr, k: nat) -> Option<Seq<char>>
    decreases e, 1nat,
{
    match e {
        Expr::BinaryOp { op, lhs, rhs } => if (column_literal(*lhs, *rhs) matches Some((c, v)) && !storage_ok(
            t.col(c).storage_ty,
            v,
        )) {
            None
        } else {
            join2(render_out(t, *lhs, k), " "@ + sym(op) + " "@, render_out(t, *rhs, k + bound(t, *lhs).len()))
        },
        Expr::And(es) => match render_outs(t, es@, k) {
            Some(parts) => Some("("@ + spec_join(parts, " AND "@) + ")"@),
            None => None,
        },
        Expr::Or(es) => match render_outs(t, es@, k) {
            Some(parts) => Some("("@ + spec_join(parts, " OR "@) + ")"@),
            None => None,
        },
        Expr::List(es) => match render_outs(t, es@, k) {
            Some(parts) => Some("["@ + spec_join(parts, ", "@) + "]"@),
            None => None,
        },
        Expr::Not(x) => match render_out(t, *x, k) {
            Some(inner) => Some("!("@ + inner + ")"@),
            None => None,
        },
        Expr::IsNull(x) => match (match *x {
            Expr::Reference(id) => Some(spec_column_ref(t, id)),
            Expr::JsonExtract { base, path } => Some(document_path_text(t, *base, path@)),
            _ => render_out(t, *x, k),
        }) {
            Some(inner) => Some(inner + " IS NONE"@),
            None => None,
        },
        Expr::Between { expr, low, high } => match (
            render_out(t, *expr, k),
            render_out(t, *low, k + bound(t, *expr).len()),
            render_out(t, *high, k + bound(t, *expr).len() + bound(t, *low).len()),
        ) {
            (Some(x), Some(lo), Some(hi)) => Some(
                "("@ + x + " >= "@ + lo + " AND "@ + x + " <= "@ + hi + ")"@,
            ),
            _ => None,
        },
        Expr::InList { expr, list } => join2(
            render_out(t, *expr, k),
            " IN "@,
            render_out(t, *list, k + bound(t, *expr).len()),
        ),
        Expr::AnyOp { op, lhs, rhs } => if op != BinaryOp::Eq {
            None
        } else {
            join2(render_out(t, *rhs, k + bound(t, *lhs).len()), " CONTAINS "@, render_out(t, *lhs, k))
        },
        Expr::IsSuperset { lhs, rhs } => join2(
            render_out(t, *lhs, k),
            " CONTAINSALL "@,
            render_out(t, *rhs, k + bound(t, *lhs).len()),
        ),
        Expr::Intersects { lhs, rhs } => join2(
            render_out(t, *lhs, k),
            " CONTAINSANY "@,
            render_out(t, *rhs, k + bound(t, *lhs).len()),
        ),
        Expr::Length(x) => match render_out(t, *x, k) {
            Some(inner) => Some("array::len("@ + inner + ")"@),
            None => None,
        },
        Expr::StartsWith { expr, prefix } => match (
            render_out(t, *expr, k),
            render_out(t, *prefix, k + bound(t, *expr).len()),
        ) {
            (Some(x), Some(p)) => Some(
                "("@ + x + " IS NOT NONE AND string::starts_with("@ + x + ", "@ + p + "))"@,
            ),
            _ => None,
        },
        Expr::JsonExtract { base, path } => Some(document_path_text(t, *base, path@)),
        Expr::Reference(id) => Some(
            spec_column_ref(t, id) + if t.col(id).ty == Type::Scalar(Scalar::Bool) {
                " = true"@
            } else {
                Seq::empty()
            },
        ),
        Expr::Value(v) => value_out(v, k),
        Expr::Other(_) => None,
    }
}

/// The text of a literal: one placeholder, or an array literal of one
/// placeholder per item for a list.
pub open spec fn value_out(v: Value, k: nat) -> Option<Seq<char>> {
    match v {
        Value::List(items) => if encodable_seq(items@) {
            Some("["@ + spec_join(placeholders(k, items@.len()), ", "@) + "]"@)
        } else {
            None
        },
        _ => if encodable(v) {
            Some(placeholder(k))
        } else {
            None
        },
    }
}

/// The texts of a sequence of expressions rendered one after the other.
pub open spec fn render_outs(t: Table, es: Seq<Expr>, k: nat) -> Option<Seq<Seq<char>>>
    decreases es, 0nat,
{
    if es.len() == 0 {
        Some(Seq::empty())
    } else {
        match render_outs(t, es.drop_last(), k) {
            Some(prev) => match render_out(t, es.last(), k + bound_seq(t, es.drop_last()).len()) {
                Some(x) => Some(prev.push(x)),
                None => None,
            },
            None => None,
        }
    }
}

/// The kind of error reported when `render_out(t, e, k)` is `None`: that of
/// the first part that fails, taking the parts in the order they are
/// rendered. Only a literal compared with a JSON column can fail with a
/// serialization error; everything else is an unsupported expression.
pub open spec fn render_fault(t: Table, e: Expr, k: nat) -> ErrorKind
    decreases e, 1nat,
{
    let unsupported = ErrorKind::UnsupportedFeature;
    match e {
        Expr::BinaryOp { op, lhs, rhs } => {
            let parts = first_fault(
                render_out(t, *lhs, k),
                render_fault(t, *lhs, k),
                render_fault(t, *rhs, k + bound(t, *lhs).len()),
            );
            match column_literal(*lhs, *rhs) {
                Some((c, v)) => if !storage_ok(t.col(c).storage_ty, v) {
                    storage_error_kind(t.col(c).storage_ty)
                } else {
                    parts
                },
                None => parts,
            }
        },
        Expr::And(es) => render_faults(t, es@, k),
        Expr::Or(es) => render_faults(t, es@, k),
        Expr::List(es) => render_faults(t, es@, k),
        Expr::Not(x) => render_fault(t, *x, k),
        Expr::IsNull(x) => render_fault(t, *x, k),
        Expr::Between { expr, low, high } => if render_out(t, *expr, k) is None {
            render_fault(t, *expr, k)
        } else {
            first_fault(
                render_out(t, *low, k + bound(t, *expr).len()),
                render_fault(t, *low, k + bound(t, *expr).len()),
                render_fault(t, *high, k + bound(t, *expr).len() + bound(t, *low).len()),
            )
        },
        Expr::InList { expr, list } => first_fault(render_out(t, *expr, k), render_fault(t, *expr, k), render_fault(t, *list, k + bound(t, *expr).len())),
        Expr::AnyOp { op, lhs, rhs } => if op != BinaryOp::Eq {
            unsupported
        } else {
            first_fault(render_out(t, *lhs, k), render_fault(t, *lhs, k), render_fault(t, *rhs, k + bound(t, *lhs).len()))
        },
        Expr::IsSuperset { lhs, rhs } => first_fault(render_out(t, *lhs, k), render_fault(t, *lhs, k), render_fault(t, *rhs, k + bound(t, *lhs).len())),
        Expr::Intersects { lhs, rhs } => first_fault(render_out(t, *lhs, k), render_fault(t, *lhs, k), render_fault(t, *rhs, k + bound(t, *lhs).len())),
        Expr::Length(x) => render_fault(t, *x, k),
        Expr::StartsWith { expr, prefix } => first_fault(render_out(t, *expr, k), render_fault(t, *expr, k), render_fault(t, *prefix, k + bound(t, *expr).len())),
        _ => unsupported,
    }
}

/// The fault of a comparison `lhs <op> rhs` that fails to render: the
/// comparison branch of `render_fault`.
#[verifier::opaque]
pub open spec fn comparison_fault(t: Table, lhs: Expr, rhs: Expr, k: nat) -> ErrorKind {
    let parts = first_fault(
        render_out(t, lhs, k),
        render_fault(t, lhs, k),
        render_fault(t, rhs, k + bound(t, lhs).len()),
    );
    match column_literal(lhs, rhs) {
        Some((c, v)) => if !storage_ok(t.col(c).storage_ty, v) {
            storage_error_kind(t.col(c).storage_ty)
        } else {
            parts
        },
        None => parts,
    }
}

/// The fault of the first of two parts rendered one after the other, given
/// the first part's text and the faults of both.
pub open spec fn first_fault(a: Option<Seq<char>>, fa: ErrorKind, fb: ErrorKind) -> ErrorKind {
    if a is None {
        fa
    } else {
        fb
    }
}

/// The fault of the first part of a sequence that fails to render.
pub open spec fn render_faults(t: Table, es: Seq<Expr>, k: nat) -> ErrorKind
    decreases es, 0nat,
{
    if es.len() == 0 {
        ErrorKind::UnsupportedFeature
    } else if render_outs(t, es.drop_last(), k) is None {
        render_faults(t, es.drop_last(), k)
    } else {
        render_fault(t, es.last(), k + bound_seq(t, es.drop_last()).len())
    }
}

/// The message of a filter that cannot be rendered: that of the first part
/// that fails, in the order `render_fault` takes them.
pub open spec fn render_message(t: Table, e: Expr, k: nat) -> Seq<char>
    decreases e, 1nat,
{
    match e {
        Expr::BinaryOp { op, lhs, rhs } => {
            let parts = first_message(
                render_out(t, *lhs, k),
                render_message(t, *lhs, k),
                render_message(t, *rhs, k + bound(t, *lhs).len()),
            );
            match column_literal(*lhs, *rhs) {
                Some((c, v)) => if !storage_ok(t.col(c).storage_ty, v) {
                    storage_fault(t.col(c).storage_ty, v)
                } else {
                    parts
                },
                None => parts,
            }
        },
        Expr::And(es) => render_messages(t, es@, k),
        Expr::Or(es) => render_messages(t, es@, k),
        Expr::List(es) => render_messages(t, es@, k),
        Expr::Not(x) => render_message(t, *x, k),
        Expr::IsNull(x) => render_message(t, *x, k),
        Expr::Between { expr, low, high } => if render_out(t, *expr, k) is None {
            render_message(t, *expr, k)
        } else {
            first_message(
                render_out(t, *low, k + bound(t, *expr).len()),
                render_message(t, *low, k + bound(t, *expr).len()),
                render_message(t, *high, k + bound(t, *expr).len() + bound(t, *low).len()),
            )
        },
        Expr::InList { expr, list } => first_message(render_out(t, *expr, k), render_message(t, *expr, k), render_message(t, *list, k + bound(t, *expr).len())),
        Expr::AnyOp { op, lhs, rhs } => if op != BinaryOp::Eq {
            any_op_message(op)
        } else {
            first_message(render_out(t, *lhs, k), render_message(t, *lhs, k), render_message(t, *rhs, k + bound(t, *lhs).len()))
        },
        Expr::IsSuperset { lhs, rhs } => first_message(render_out(t, *lhs, k), render_message(t, *lhs, k), render_message(t, *rhs, k + bound(t, *lhs).len())),
        Expr::Intersects { lhs, rhs } => first_message(render_out(t, *lhs, k), render_message(t, *lhs, k), render_message(t, *rhs, k + bound(t, *lhs).len())),
        Expr::Length(x) => render_message(t, *x, k),
        Expr::StartsWith { expr, prefix } => first_message(render_out(t, *expr, k), render_message(t, *expr, k), render_message(t, *prefix, k + bound(t, *expr).len())),
        Expr::Value(v) => encode_fault(v),
        Expr::Other(d) => unsupported_expression_message(d@),
        _ => Seq::empty(),
    }
}

/// The message of a comparison `lhs <op> rhs` that fails to render: the
/// comparison branch of `render_message`.
#[verifier::opaque]
pub open spec fn comparison_message(t: Table, lhs: Expr, rhs: Expr, k: nat) -> Seq<char> {
    let parts = first_message(
        render_out(t, lhs, k),
        render_message(t, lhs, k),
        render_message(t, rhs, k + bound(t, lhs).len()),
    );
    match column_literal(lhs, rhs) {
        Some((c, v)) => if !storage_ok(t.col(c).storage_ty, v) {
            storage_fault(t.col(c).storage_ty, v)
        } else {
            parts
        },
        None => parts,
    }
}

/// The message of the first of two parts rendered one after the other.
pub open spec fn first_message(a: Option<Seq<char>>, ma: Seq<char>, mb: Seq<char>) -> Seq<char> {
    if a is None {
        ma
    } else {
        mb
    }
}

/// The message of the first part of a sequence that fails to render.
pub open spec fn render_messages(t: Table, es: Seq<Expr>, k: nat) -> Seq<char>
    decreases es, 0nat,
{
    if es.len() == 0 {
        Seq::empty()
    } else if render_outs(t, es.drop_last(), k) is None {
        render_messages(t, es.drop_last(), k)
    } else {
        render_message(t, es.last(), k + bound_seq(t, es.drop_last()).len())
    }
}

/// The message of an expression kind the driver cannot translate.
pub open spec fn unsupported_expression_message(desc: Seq<char>) -> Seq<char> {
    "SurrealDB driver cannot translate filter expression"@ + ": "@ + desc
}

/// The message of an `ANY` comparison other than equality.
pub open spec fn any_op_message(op: BinaryOp) -> Seq<char> {
    "SurrealDB driver only supports `= ANY` list membership, got "@ + sym(op)
}

fn unsupported_expression(desc: &str) -> (e: DriverError)
    ensures
        e.kind == ErrorKind::UnsupportedFeature,
        e.message@ == unsupported_expression_message(desc@),
{
    let mut message = String::new();
    message.append("SurrealDB driver cannot translate filter expression");
    message.append(": ");
    message.append(desc);
    DriverError { kind: ErrorKind::UnsupportedFeature, message }
}

/// Binds a literal. A list renders as an array literal of one parameter per
/// item, so that `IN` receives a real list operand rather than one opaque
/// parameter.
fn value_to_binds(binds: &mut Binds, value: &Value) -> (r: Result<String, DriverError>)
    ensures
        r is Ok <==> value_out(*value, old(binds).values@.len()) is Some,
        match r {
            Ok(s) => Some(s@) == value_out(*value, old(binds).values@.len())
                && binds_extend(old(binds).values@, final(binds).values@, value_bound(*value)),
            Err(e) => e.kind == ErrorKind::UnsupportedFeature && e.message@ == encode_fault(*value),
        },
{
    let ghost start = binds.values@;
    let ghost k = start.len();
    match value {
        Value::List(items) => {
            let mut parts: Vec<String> = Vec::new();
            let n = items.len();
            let mut i: usize = 0;
            proof {
                lemma_binds_extend_refl(start);
                assert(items@.take(0) =~= Seq::<Value>::empty());
                assert(plain_seq(items@.take(0)) =~= Seq::<Literal>::empty());
            }
            while i < n
                invariant
                    n == items@.len(),
                    i <= n,
                    *value == Value::List(*items),
                    start == old(binds).values@,
                    k == start.len(),
                    encodable_seq(items@.take(i as int)),
                    views(parts@) == placeholders(k, i as nat),
                    binds_extend(start, binds.values@, plain_seq(items@.take(i as int))),
                decreases n - i,
            {
                assert(items@.take(i + 1).drop_last() =~= items@.take(i as int));
                let encoded = match to_surreal(&items[i]) {
                    Ok(y) => y,
                    Err(e) => {
                        proof {
                            assert(items@.take(i + 1).last() == items@[i as int]);
                            assert(!encodable_seq(items@.take(i + 1)));
                            lemma_encodable_seq_extends(items@, i as int + 1, n as int);
                            assert(items@.take(n as int) =~= items@);
                        }
                        return Err(e);
                    },
                };
                let ghost before = binds.values@;
                let ghost before_parts = parts@;
                let ph = binds.push(encoded);
                parts.push(ph);
                proof {
                    assert(before.len() == k + i);
                    assert(views(parts@) =~= views(before_parts).push(ph@));
                    assert(placeholders(k, (i + 1) as nat) =~= placeholders(k, i as nat).push(
                        placeholder((k + i) as nat),
                    ));
                    assert(views(parts@) =~= placeholders(k, (i + 1) as nat));
                    let new = binds.values@;
                    assert(new.take(before.len() as int) =~= before);
                    assert(binds_extend(before, new, seq![plain(items@[i as int])]));
                    lemma_binds_extend_trans(start, before, new, plain_seq(items@.take(i as int)), seq![plain(items@[i as int])]);
                    assert(plain_seq(items@.take(i as int)) + seq![plain(items@[i as int])] =~= plain_seq(items@.take(i + 1)));
                }
                i = i + 1;
            }
            assert(items@.take(n as int) =~= items@);
            assert(plain_seq(items@) == value_bound(*value));
            let mut out = String::new();
            out.append("[");
            crate::text::push_joined(&mut out, &parts, ", ");
            out.append("]");
            assert(out@ =~= "["@ + spec_join(placeholders(k, n as nat), ", "@) + "]"@);
            Ok(out)
        },
        _ => {
            let encoded = to_surreal(value)?;
            let ghost before = binds.values@;
            let ph = binds.push(encoded);
            proof {
                let new = binds.values@;
                assert(new.take(before.len() as int) =~= before);
                assert(value_bound(*value) == seq![plain(*value)]);
            }
            Ok(ph)
        },
    }
}

proof fn lemma_encodable_seq_extends(xs: Seq<Value>, i: int, n: int)
    requires
        0 < i <= n <= xs.len(),
        !encodable_seq(xs.take(i)),
    ensures
        !encodable_seq(xs.take(n)),
        encode_fault_seq(xs.take(n)) == encode_fault_seq(xs.take(i)),
    decreases n - i,
{
    if i < n {
        assert(xs.take(i + 1).drop_last() =~= xs.take(i));
        lemma_encodable_seq_extends(xs, i + 1, n);
    }
}

/// Appends `.<segment>` for every path segment.
fn push_path(out: &mut String, path: &Vec<String>)
    ensures
        final(out)@ == old(out)@ + path_suffix(path@),
{
    let ghost start = out@;
    let n = path.len();
    let mut i: usize = 0;
    while i < n
        invariant
            n == path@.len(),
            i <= n,
            out@ == start + path_suffix(path@.take(i as int)),
        decreases n - i,
    {
        assert(path@.take(i + 1).drop_last() =~= path@.take(i as int));
        out.append(".");
        push_escaped_ident_str(out, path[i].as_str());
        assert(out@ =~= start + path_suffix(path@.take(i + 1)));
        i = i + 1;
    }
    assert(path@.take(n as int) =~= path@);
}

/// Renders a document path (`col.a.b`) with each segment escaped.
fn document_path(table: &Table, base: &Expr, path: &Vec<String>) -> (r: String)
    requires
        refs_valid(*table, *base),
    ensures
        r@ == document_path_text(*table, *base, path@),
    decreases base, 2nat,
{
    let mut out = match base {
        Expr::Reference(id) => column_ref(table, *id),
        _ => {
            let mut scratch = Binds::new();
            match render(table, &mut scratch, base) {
                Ok(text) => text,
                Err(_) => {
                    let mut fallback = String::new();
                    fallback.append("id");
                    fallback
                },
            }
        },
    };
    push_path(&mut out, path);
    out
}

/// Binds a literal compared with `column`, encoded for the column's storage
/// type.
fn bind_literal(binds: &mut Binds, value: &Value, column: &Column) -> (r: Result<String, DriverError>)
    ensures
        r is Ok <==> storage_ok(column.storage_ty, *value),
        r matches Ok(ph) ==> ph@ == placeholder(old(binds).values@.len()) && binds_extend(
            old(binds).values@,
            final(binds).values@,
            seq![Literal { value: *value, storage: Some(column.storage_ty) }],
        ),
        r matches Err(e) ==> e.kind == storage_error_kind(column.storage_ty) && e.message@ == storage_fault(
            column.storage_ty,
            *value,
        ),
{
    let enc = to_surreal_for_storage(value, &column.storage_ty)?;
    let ghost before = binds.values@;
    let ph = binds.push(enc);
    assert(binds.values@.take(before.len() as int) =~= before);
    Ok(ph)
}

/// Renders the expressions one after the other.
#[verifier::spinoff_prover]
fn render_seq(table: &Table, binds: &mut Binds, es: &Vec<Expr>, Ghost(whole): Ghost<Expr>) -> (r: Result<Vec<String>, DriverError>)
    requires
        forall|k: int| 0 <= k < es@.len() ==> decreases_to!(whole => es@[k]),
        refs_valid_seq(*table, es@),
    ensures
        r is Ok <==> render_outs(*table, es@, old(binds).values@.len()) is Some,
        match r {
            Ok(parts) => Some(views(parts@)) == render_outs(*table, es@, old(binds).values@.len())
                && binds_extend(old(binds).values@, final(binds).values@, bound_seq(*table, es@)),
            Err(e) => render_error(e.kind) && e.kind == render_faults(*table, es@, old(binds).values@.len())
                && e.message@ == render_messages(*table, es@, old(binds).values@.len()),
        },
    decreases whole, 0nat,
{
    let ghost start = binds.values@;
    let ghost k = start.len();
    let mut parts: Vec<String> = Vec::new();
    let n = es.len();
    let mut i: usize = 0;
    proof {
        lemma_binds_extend_refl(start);
        assert(es@.take(0) =~= Seq::<Expr>::empty());
        assert(views(parts@) =~= Seq::<Seq<char>>::empty());
    }
    while i < n
        invariant
            n == es@.len(),
            i <= n,
            start == old(binds).values@,
            k == start.len(),
            forall|j: int| 0 <= j < es@.len() ==> decreases_to!(whole => es@[j]),
            refs_valid_seq(*table, es@),
            render_outs(*table, es@.take(i as int), k) == Some(views(parts@)),
            binds_extend(start, binds.values@, bound_seq(*table, es@.take(i as int))),
        decreases n - i,
    {
        let ghost prefix = es@.take(i as int);
        assert(es@.take(i + 1).drop_last() =~= prefix);
        assert(es@.take(i + 1).last() == es@[i as int]);
        proof {
            lemma_refs_valid_seq_at(*table, es@, i as int);
        }
        let ghost before = binds.values@;
        let text = match render(table, binds, &es[i]) {
            Ok(t) => t,
            Err(e) => {
                proof {
                    lemma_render_outs_fails(*table, es@, k, i as int + 1, n as int);
                    assert(es@.take(n as int) =~= es@);
                }
                return Err(e);
            },
        };
        let ghost before_parts = parts@;
        parts.push(text);
        proof {
            lemma_binds_extend_trans(start, before, binds.values@, bound_seq(*table, prefix), bound(*table, es@[i as int]));
            assert(views(parts@) =~= views(before_parts).push(text@));
        }
        i = i + 1;
    }
    assert(es@.take(n as int) =~= es@);
    Ok(parts)
}

proof fn lemma_refs_valid_seq_at(t: Table, es: Seq<Expr>, i: int)
    requires
        refs_valid_seq(t, es),
        0 <= i < es.len(),
    ensures
        refs_valid(t, es[i]),
    decreases es.len(),
{
    if i < es.len() - 1 {
        lemma_refs_valid_seq_at(t, es.drop_last(), i);
    }
}

proof fn lemma_render_outs_fails(t: Table, es: Seq<Expr>, k: nat, i: int, n: int)
    requires
        0 < i <= n <= es.len(),
        render_outs(t, es.take(i), k) is None,
    ensures
        render_outs(t, es.take(n), k) is None,
        render_faults(t, es.take(n), k) == render_faults(t, es.take(i), k),
        render_messages(t, es.take(n), k) == render_messages(t, es.take(i), k),
    decreases n - i,
{
    if i < n {
        assert(es.take(i + 1).drop_last() =~= es.take(i));
        lemma_render_outs_fails(t, es, k, i + 1, n);
    }
}

/// Renders `column <op> literal`, binding the literal for the column's
/// storage type.
#[verifier::spinoff_prover]
#[verifier::rlimit(60)]
fn render_column_then_literal(
    table: &Table,
    binds: &mut Binds,
    op: BinaryOp,
    lhs: &Expr,
    rhs: &Expr,
    Ghost(whole): Ghost<Expr>,
) -> (r: Result<String, DriverError>)
    requires
        whole == (Expr::BinaryOp { op, lhs: Box::new(*lhs), rhs: Box::new(*rhs) }),
        lhs is Reference,
        rhs is Value && !(rhs->Value_0 is List),
        refs_valid(*table, *lhs),
    ensures
        r is Ok <==> render_out(*table, whole, old(binds).values@.len()) is Some,
        match r {
            Ok(s) => Some(s@) == render_out(*table, whole, old(binds).values@.len())
                && binds_extend(old(binds).values@, final(binds).values@, bound(*table, whole)),
            Err(e) => render_error(e.kind) && e.kind == comparison_fault(*table, *lhs, *rhs, old(binds).values@.len())
                && e.message@ == comparison_message(*table, *lhs, *rhs, old(binds).values@.len()),
        },
    decreases whole, 0nat,
{
    let ghost start = binds.values@;
    let ghost k = start.len();
    let (c, v) = match (lhs, rhs) {
        (Expr::Reference(c), Expr::Value(v)) => (c, v),
        _ => {
            assert(false);
            return Err(unsupported_expression(""));
        },
    };
    proof {
        assert(column_literal(*lhs, *rhs) == Some((*c, *v)));
        assert(decreases_to!(whole => *lhs));
    }
    let l = match render(table, binds, lhs) {
        Ok(l) => l,
        Err(e) => {
            assert(render_out(*table, *lhs, k) is Some);
            return Err(e);
        },
    };
    let ghost mid = binds.values@;
    let ph = match bind_literal(binds, v, &table.columns[c.index]) {
        Ok(ph) => ph,
        Err(e) => {
            assert(e.kind == comparison_fault(*table, *lhs, *rhs, k) && e.message@ == comparison_message(*table, *lhs, *rhs, k)) by {
                reveal(comparison_fault);
                reveal(comparison_message);
            }
            return Err(e);
        },
    };
    proof {
        assert(bound(*table, *lhs) =~= Seq::<Literal>::empty());
        assert(render_out(*table, *rhs, mid.len()) == Some(ph@));
        lemma_binds_extend_trans(
            start,
            mid,
            binds.values@,
            bound(*table, *lhs),
            seq![Literal { value: *v, storage: Some(table.col(*c).storage_ty) }],
        );
    }
    let mut out = l;
    out.append(" ");
    out.append(op_symbol(op));
    out.append(" ");
    out.append(ph.as_str());
    assert(out@ =~= l@ + (" "@ + sym(op) + " "@) + ph@);
    Ok(out)
}

/// Renders `literal <op> column`, binding the literal for the column's
/// storage type.
#[verifier::spinoff_prover]
#[verifier::rlimit(60)]
fn render_literal_then_column(
    table: &Table,
    binds: &mut Binds,
    op: BinaryOp,
    lhs: &Expr,
    rhs: &Expr,
    Ghost(whole): Ghost<Expr>,
) -> (r: Result<String, DriverError>)
    requires
        whole == (Expr::BinaryOp { op, lhs: Box::new(*lhs), rhs: Box::new(*rhs) }),
        lhs is Value && !(lhs->Value_0 is List),
        rhs is Reference,
        refs_valid(*table, *rhs),
    ensures
        r is Ok <==> render_out(*table, whole, old(binds).values@.len()) is Some,
        match r {
            Ok(s) => Some(s@) == render_out(*table, whole, old(binds).values@.len())
                && binds_extend(old(binds).values@, final(binds).values@, bound(*table, whole)),
            Err(e) => render_error(e.kind) && e.kind == comparison_fault(*table, *lhs, *rhs, old(binds).values@.len())
                && e.message@ == comparison_message(*table, *lhs, *rhs, old(binds).values@.len()),
        },
    decreases whole, 0nat,
{
    let ghost start = binds.values@;
    let ghost k = start.len();
    let (v, c) = match (lhs, rhs) {
        (Expr::Value(v), Expr::Reference(c)) => (v, c),
        _ => {
            assert(false);
            return Err(unsupported_expression(""));
        },
    };
    proof {
        assert(column_literal(*lhs, *rhs) == Some((*c, *v)));
    }
    let ph = match bind_literal(binds, v, &table.columns[c.index]) {
        Ok(ph) => ph,
        Err(e) => {
            assert(e.kind == comparison_fault(*table, *lhs, *rhs, k) && e.message@ == comparison_message(*table, *lhs, *rhs, k)) by {
                reveal(comparison_fault);
                reveal(comparison_message);
            }
            return Err(e);
        },
    };
    let ghost mid = binds.values@;
    proof {
        assert(decreases_to!(whole => *rhs));
    }
    let r = match render(table, binds, rhs) {
        Ok(r) => r,
        Err(e) => {
            assert(render_out(*table, *rhs, mid.len()) is Some);
            return Err(e);
        },
    };
    proof {
        lemma_binds_extend_trans(
            start,
            mid,
            binds.values@,
            seq![Literal { value: *v, storage: Some(table.col(*c).storage_ty) }],
            bound(*table, *rhs),
        );
        assert(bound(*table, *rhs) =~= Seq::<Literal>::empty());
        assert(bound(*table, *lhs).len() == 1);
        assert(render_out(*table, *lhs, k) == Some(ph@));
    }
    let mut out = ph;
    out.append(" ");
    out.append(op_symbol(op));
    out.append(" ");
    out.append(r.as_str());
    assert(out@ =~= ph@ + (" "@ + sym(op) + " "@) + r@);
    Ok(out)
}

/// Renders a comparison `lhs <op> rhs` in which no literal is compared with
/// a column: both sides are rendered in turn.
#[verifier::spinoff_prover]
#[verifier::rlimit(60)]
fn render_comparison(
    table: &Table,
    binds: &mut Binds,
    op: BinaryOp,
    lhs: &Expr,
    rhs: &Expr,
    Ghost(whole): Ghost<Expr>,
) -> (r: Result<String, DriverError>)
    requires
        whole == (Expr::BinaryOp { op, lhs: Box::new(*lhs), rhs: Box::new(*rhs) }),
        column_literal(*lhs, *rhs) is None,
        decreases_to!(whole => *lhs),
        decreases_to!(whole => *rhs),
        refs_valid(*table, *lhs),
        refs_valid(*table, *rhs),
    ensures
        r is Ok <==> render_out(*table, whole, old(binds).values@.len()) is Some,
        match r {
            Ok(s) => Some(s@) == render_out(*table, whole, old(binds).values@.len())
                && binds_extend(old(binds).values@, final(binds).values@, bound(*table, whole)),
            Err(e) => render_error(e.kind) && e.kind == comparison_fault(*table, *lhs, *rhs, old(binds).values@.len())
                && e.message@ == comparison_message(*table, *lhs, *rhs, old(binds).values@.len()),
        },
    decreases whole, 0nat,
{
    let ghost start = binds.values@;
    let ghost k = start.len();
    let l = match render(table, binds, lhs) {
        Ok(l) => l,
        Err(e) => {
            assert(e.kind == comparison_fault(*table, *lhs, *rhs, k) && e.message@ == comparison_message(*table, *lhs, *rhs, k)) by {
                reveal(comparison_fault);
                reveal(comparison_message);
            }
            return Err(e);
        },
    };
    let ghost mid = binds.values@;
    let r = match render(table, binds, rhs) {
        Ok(r) => r,
        Err(e) => {
            assert(e.kind == comparison_fault(*table, *lhs, *rhs, k) && e.message@ == comparison_message(*table, *lhs, *rhs, k)) by {
                reveal(comparison_fault);
                reveal(comparison_message);
            }
            return Err(e);
        },
    };
    proof {
        lemma_binds_extend_trans(start, mid, binds.values@, bound(*table, *lhs), bound(*table, *rhs));
    }
    let mut out = l;
    out.append(" ");
    out.append(op_symbol(op));
    out.append(" ");
    out.append(r.as_str());
    assert(out@ =~= l@ + (" "@ + sym(op) + " "@) + r@);
    Ok(out)
}

/// Renders `expr` as a SurrealQL predicate, collecting its literals as
/// positional parameters in `binds`.
#[verifier::spinoff_prover]
pub fn render(table: &Table, binds: &mut Binds, expr: &Expr) -> (r: Result<String, DriverError>)
    requires
        refs_valid(*table, *expr),
    ensures
        r is Ok <==> render_out(*table, *expr, old(binds).values@.len()) is Some,
        match r {
            Ok(s) => Some(s@) == render_out(*table, *expr, old(binds).values@.len())
                && binds_extend(old(binds).values@, final(binds).values@, bound(*table, *expr)),
            Err(e) => render_error(e.kind) && e.kind == render_fault(*table, *expr, old(binds).values@.len())
                && e.message@ == render_message(*table, *expr, old(binds).values@.len()),
        },
    decreases expr, 1nat,
{
    let ghost start = binds.values@;
    let ghost k = start.len();
    match expr {
        Expr::BinaryOp { op, lhs, rhs } => {
            proof {
                assert(decreases_to!(*expr => **lhs));
                assert(decreases_to!(*expr => **rhs));
            }
            let r = match (&**lhs, &**rhs) {
                (Expr::Reference(_), Expr::Value(v)) if !matches!(v, Value::List(_)) => {
                    render_column_then_literal(table, binds, *op, lhs, rhs, Ghost(*expr))
                },
                (Expr::Value(v), Expr::Reference(_)) if !matches!(v, Value::List(_)) => {
                    render_literal_then_column(table, binds, *op, lhs, rhs, Ghost(*expr))
                },
                _ => render_comparison(table, binds, *op, lhs, rhs, Ghost(*expr)),
            };
            proof {
                reveal(comparison_fault);
                reveal(comparison_message);
            }
            r
        },
        Expr::And(es) | Expr::Or(es) | Expr::List(es) => {
            proof {
                assert forall|j: int| 0 <= j < es@.len() implies decreases_to!(*expr => es@[j]) by {
                    assert(decreases_to!(*expr => *es));
                    assert(decreases_to!(*es => es@));
                    assert(decreases_to!(es@ => es@[j]));
                }
            }
            let parts = render_seq(table, binds, es, Ghost(*expr))?;
            let mut out = String::new();
            match expr {
                Expr::And(_) => {
                    out.append("(");
                    crate::text::push_joined(&mut out, &parts, " AND ");
                    out.append(")");
                },
                Expr::Or(_) => {
                    out.append("(");
                    crate::text::push_joined(&mut out, &parts, " OR ");
                    out.append(")");
                },
                _ => {
                    out.append("[");
                    crate::text::push_joined(&mut out, &parts, ", ");
                    out.append("]");
                },
            }
            Ok(out)
        },
        Expr::Not(x) => {
            let inner = render(table, binds, x)?;
            let mut out = String::new();
            out.append("!(");
            out.append(inner.as_str());
            out.append(")");
            Ok(out)
        },
        Expr::IsNull(x) => {
            assert(refs_valid(*table, **x));
            let mut inner = match &**x {
                Expr::Reference(id) => {
                    proof {
                        lemma_binds_extend_refl(start);
                        assert(**x == Expr::Reference(*id));
                    }
                    column_ref(table, *id)
                },
                Expr::JsonExtract { base, path } => {
                    proof {
                        lemma_binds_extend_refl(start);
                        assert(**x == Expr::JsonExtract { base: *base, path: *path });
                    }
                    document_path(table, base, path)
                },
                _ => render(table, binds, x)?,
            };
            inner.append(" IS NONE");
            Ok(inner)
        },
        Expr::Between { expr: target, low, high } => {
            let t = render(table, binds, target)?;
            let ghost m1 = binds.values@;
            let lo = render(table, binds, low)?;
            let ghost m2 = binds.values@;
            let hi = render(table, binds, high)?;
            proof {
                lemma_binds_extend_trans(start, m1, m2, bound(*table, **target), bound(*table, **low));
                lemma_binds_extend_trans(start, m2, binds.values@, bound(*table, **target) + bound(*table, **low), bound(*table, **high));
            }
            let mut out = String::new();
            out.append("(");
            out.append(t.as_str());
            out.append(" >= ");
            out.append(lo.as_str());
            out.append(" AND ");
            out.append(t.as_str());
            out.append(" <= ");
            out.append(hi.as_str());
            out.append(")");
            Ok(out)
        },
        Expr::InList { expr: target, list } => {
            let t = render(table, binds, target)?;
            let ghost mid = binds.values@;
            let l = render(table, binds, list)?;
            proof {
                lemma_binds_extend_trans(start, mid, binds.values@, bound(*table, **target), bound(*table, **list));
            }
            let mut out = t;
            out.append(" IN ");
            out.append(l.as_str());
            Ok(out)
        },
        Expr::AnyOp { op, lhs, rhs } => {
            match op {
                BinaryOp::Eq => {},
                _ => {
                    let mut message = String::new();
                    message.append("SurrealDB driver only supports `= ANY` list membership, got ");
                    message.append(op_symbol(*op));
                    return Err(DriverError { kind: ErrorKind::UnsupportedFeature, message });
                },
            }
            let value = render(table, binds, lhs)?;
            let ghost mid = binds.values@;
            let list = render(table, binds, rhs)?;
            proof {
                lemma_binds_extend_trans(start, mid, binds.values@, bound(*table, **lhs), bound(*table, **rhs));
            }
            let mut out = list;
            out.append(" CONTAINS ");
            out.append(value.as_str());
            Ok(out)
        },
        Expr::IsSuperset { lhs, rhs } | Expr::Intersects { lhs, rhs } => {
            let l = render(table, binds, lhs)?;
            let ghost mid = binds.values@;
            let r = render(table, binds, rhs)?;
            proof {
                lemma_binds_extend_trans(start, mid, binds.values@, bound(*table, **lhs), bound(*table, **rhs));
            }
            let mut out = l;
            match expr {
                Expr::IsSuperset { .. } => out.append(" CONTAINSALL "),
                _ => out.append(" CONTAINSANY "),
            }
            out.append(r.as_str());
            Ok(out)
        },
        Expr::Length(x) => {
            let inner = render(table, binds, x)?;
            let mut out = String::new();
            out.append("array::len(");
            out.append(inner.as_str());
            out.append(")");
            Ok(out)
        },
        Expr::StartsWith { expr: target, prefix } => {
            let t = render(table, binds, target)?;
            let ghost mid = binds.values@;
            let p = render(table, binds, prefix)?;
            proof {
                lemma_binds_extend_trans(start, mid, binds.values@, bound(*table, **target), bound(*table, **prefix));
            }
            let mut out = String::new();
            out.append("(");
            out.append(t.as_str());
            out.append(" IS NOT NONE AND string::starts_with(");
            out.append(t.as_str());
            out.append(", ");
            out.append(p.as_str());
            out.append("))");
            Ok(out)
        },
        Expr::JsonExtract { base, path } => {
            proof {
                lemma_binds_extend_refl(start);
            }
            Ok(document_path(table, base, path))
        },
        Expr::Reference(id) => {
            proof {
                lemma_binds_extend_refl(start);
            }
            let mut out = column_ref(table, *id);
            let is_bool = match &table.columns[id.index].ty {
                Type::Scalar(Scalar::Bool) => true,
                _ => false,
            };
            if is_bool {
                out.append(" = true");
            }
            Ok(out)
        },
        Expr::Value(v) => value_to_binds(binds, v),
        Expr::Other(d) => Err(unsupported_expression(d.as_str())),
    }
}

} // verus!
