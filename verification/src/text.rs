//! String helpers used to build SurrealQL text: identifier and string-literal
//! escaping, decimal rendering of integers, joining, and substring search.

use vstd::prelude::*;

verus! {

/// The two character-escaping rules SurrealQL text needs.
#[derive(Clone, Copy, PartialEq, Eq, Structural)]
pub enum Escape {
    /// Inside a backtick identifier: a backtick is doubled.
    Backtick,
    /// Inside a single-quoted string: a backslash becomes `\\` and a quote `\'`.
    SingleQuoted,
}

/// What one character becomes under an escaping rule.
pub open spec fn escape_char(e: Escape, c: char) -> Seq<char> {
    match e {
        Escape::Backtick => if c == '`' {
            seq!['`', '`']
        } else {
            seq![c]
        },
        Escape::SingleQuoted => if c == '\\' {
            seq!['\\', '\\']
        } else if c == '\'' {
            seq!['\\', '\'']
        } else {
            seq![c]
        },
    }
}

/// `s` with every character escaped under rule `e`.
pub open spec fn escape_seq(e: Escape, s: Seq<char>) -> Seq<char>
    decreases s.len(),
{
    if s.len() == 0 {
        Seq::empty()
    } else {
        escape_seq(e, s.drop_last()) + escape_char(e, s.last())
    }
}

/// A SurrealQL identifier: the name in backticks with embedded backticks doubled.
pub open spec fn spec_escape_ident(name: Seq<char>) -> Seq<char> {
    seq!['`'] + escape_seq(Escape::Backtick, name) + seq!['`']
}

proof fn lemma_escape_seq_take_step(e: Escape, s: Seq<char>, i: int)
    requires
        0 <= i < s.len(),
    ensures
        escape_seq(e, s.take(i + 1)) == escape_seq(e, s.take(i)) + escape_char(e, s[i]),
{
    assert(s.take(i + 1).drop_last() =~= s.take(i));
}

/// Appends one character to a string.
///
/// Trusted: `String::push` appends exactly the given character.
#[verifier::external_body]
pub(crate) fn push_char(s: &mut String, c: char)
    ensures
        final(s)@ == old(s)@.push(c),
{
    s.push(c);
}

/// Appends the escaped form of `src` under rule `e` to `out`.
pub fn push_escaped(out: &mut String, src: &str, e: Escape)
    ensures
        final(out)@ == old(out)@ + escape_seq(e, src@),
{
    let n = src.unicode_len();
    let ghost start = out@;
    let mut i: usize = 0;
    while i < n
        invariant
            n == src@.len(),
            i <= n,
            out@ == start + escape_seq(e, src@.take(i as int)),
        decreases n - i,
    {
        let c = src.get_char(i);
        let ghost before = out@;
        match e {
            Escape::Backtick => {
                if c == '`' {
                    push_char(out, '`');
                    push_char(out, '`');
                } else {
                    push_char(out, c);
                }
            },
            Escape::SingleQuoted => {
                if c == '\\' {
                    push_char(out, '\\');
                    push_char(out, '\\');
                } else if c == '\'' {
                    push_char(out, '\\');
                    push_char(out, '\'');
                } else {
                    push_char(out, c);
                }
            },
        }
        proof {
            lemma_escape_seq_take_step(e, src@, i as int);
            assert(out@ =~= before + escape_char(e, c));
            assert(start + escape_seq(e, src@.take(i + 1)) =~= before + escape_char(e, c));
        }
        i = i + 1;
    }
    assert(src@.take(n as int) =~= src@);
}

/// Appends a backtick identifier.
pub fn push_escaped_ident_str(out: &mut String, name: &str)
    ensures
        final(out)@ == old(out)@ + spec_escape_ident(name@),
{
    push_char(out, '`');
    push_escaped(out, name, Escape::Backtick);
    push_char(out, '`');
    assert(out@ =~= old(out)@ + spec_escape_ident(name@));
}

/// Wraps an identifier in backticks, doubling any embedded backtick, so column
/// names that collide with SurrealQL keywords remain valid.
pub fn escape_ident(name: &str) -> (r: String)
    ensures
        r@ == spec_escape_ident(name@),
{
    let mut out = String::new();
    push_char(&mut out, '`');
    push_escaped(&mut out, name, Escape::Backtick);
    push_char(&mut out, '`');
    out
}

/// The decimal digit character for `d < 10`.
pub open spec fn digit_char(d: int) -> char {
    if d == 0 { '0' } else if d == 1 { '1' } else if d == 2 { '2' } else if d == 3 { '3' }
    else if d == 4 { '4' } else if d == 5 { '5' } else if d == 6 { '6' } else if d == 7 { '7' }
    else if d == 8 { '8' } else { '9' }
}

/// The decimal rendering of a natural number, without leading zeros.
pub open spec fn spec_decimal(n: nat) -> Seq<char>
    decreases n,
{
    if n < 10 {
        seq![digit_char(n as int)]
    } else {
        spec_decimal(n / 10).push(digit_char((n % 10) as int))
    }
}

/// The decimal rendering of an integer, with a leading `-` when negative.
pub open spec fn spec_signed_decimal(i: int) -> Seq<char> {
    if i < 0 {
        seq!['-'] + spec_decimal((-i) as nat)
    } else {
        spec_decimal(i as nat)
    }
}

fn digit(d: u64) -> (c: char)
    requires
        d < 10,
    ensures
        c == digit_char(d as int),
{
    if d == 0 { '0' } else if d == 1 { '1' } else if d == 2 { '2' } else if d == 3 { '3' }
    else if d == 4 { '4' } else if d == 5 { '5' } else if d == 6 { '6' } else if d == 7 { '7' }
    else if d == 8 { '8' } else { '9' }
}

/// Appends the decimal rendering of `n` to `out`.
pub fn push_decimal(out: &mut String, n: u64)
    ensures
        final(out)@ == old(out)@ + spec_decimal(n as nat),
    decreases n,
{
    if n >= 10 {
        push_decimal(out, n / 10);
    }
    let c = digit(n % 10);
    push_char(out, c);
    proof {
        if n >= 10 {
            assert(spec_decimal(n as nat) == spec_decimal((n / 10) as nat).push(digit_char((n % 10) as int)));
        }
    }
    assert(out@ =~= old(out)@ + spec_decimal(n as nat));
}

/// Appends the decimal rendering of a signed integer to `out`.
pub fn push_signed_decimal(out: &mut String, i: i64)
    ensures
        final(out)@ == old(out)@ + spec_signed_decimal(i as int),
{
    if i < 0 {
        push_char(out, '-');
        let wide: i128 = i as i128;
        let magnitude: u64 = (0i128 - wide) as u64;
        push_decimal(out, magnitude);
        assert(out@ =~= old(out)@ + spec_signed_decimal(i as int));
    } else {
        push_decimal(out, i as u64);
    }
}

/// The decimal rendering of `n` as a new string.
pub fn decimal_string(n: u64) -> (r: String)
    ensures
        r@ == spec_decimal(n as nat),
{
    let mut out = String::new();
    push_decimal(&mut out, n);
    assert(out@ =~= spec_decimal(n as nat));
    out
}

/// The character sequences of a sequence of strings.
pub open spec fn views(v: Seq<String>) -> Seq<Seq<char>> {
    v.map_values(|s: String| s@)
}

/// The pieces joined with `sep` between consecutive pieces, as `[..].join(sep)`.
pub open spec fn spec_join(parts: Seq<Seq<char>>, sep: Seq<char>) -> Seq<char>
    decreases parts.len(),
{
    if parts.len() == 0 {
        Seq::empty()
    } else if parts.len() == 1 {
        parts[0]
    } else {
        spec_join(parts.drop_last(), sep) + sep + parts.last()
    }
}

/// Appends `parts` joined by `sep` to `out`.
pub fn push_joined(out: &mut String, parts: &Vec<String>, sep: &str)
    ensures
        final(out)@ == old(out)@ + spec_join(views(parts@), sep@),
{
    let ghost start = out@;
    let n = parts.len();
    let mut i: usize = 0;
    while i < n
        invariant
            n == parts@.len(),
            i <= n,
            out@ == start + spec_join(views(parts@).take(i as int), sep@),
        decreases n - i,
    {
        let ghost before = out@;
        if i != 0 {
            out.append(sep);
        }
        out.append(parts[i].as_str());
        proof {
            let pv = views(parts@);
            assert(pv.take(i + 1).drop_last() =~= pv.take(i as int));
            assert(pv.take(i + 1).last() == parts@[i as int]@);
            if i == 0 {
                assert(out@ =~= start + spec_join(pv.take(i + 1), sep@));
            } else {
                assert(out@ =~= start + spec_join(pv.take(i + 1), sep@));
            }
        }
        i = i + 1;
    }
    assert(views(parts@).take(n as int) =~= views(parts@));
}

/// `parts` joined by `sep` as a new string.
pub fn join(parts: &Vec<String>, sep: &str) -> (r: String)
    ensures
        r@ == spec_join(views(parts@), sep@),
{
    let mut out = String::new();
    push_joined(&mut out, parts, sep);
    assert(out@ =~= spec_join(views(parts@), sep@));
    out
}

/// `needle` occurs in `hay` starting at position `i`.
pub open spec fn occurs_at(hay: Seq<char>, needle: Seq<char>, i: int) -> bool {
    0 <= i && i + needle.len() <= hay.len() && hay.subrange(i, i + needle.len()) == needle
}

/// `needle` occurs somewhere in `hay`.
pub open spec fn spec_contains(hay: Seq<char>, needle: Seq<char>) -> bool {
    exists|i: int| occurs_at(hay, needle, i)
}

fn matches_at(hay: &str, needle: &str, i: usize, hn: usize, nn: usize) -> (r: bool)
    requires
        hn == hay@.len(),
        nn == needle@.len(),
        i + nn <= hn,
    ensures
        r == occurs_at(hay@, needle@, i as int),
{
    let mut j: usize = 0;
    while j < nn
        invariant
            hn == hay@.len(),
            nn == needle@.len(),
            i + nn <= hn,
            j <= nn,
            forall|k: int| 0 <= k < j ==> hay@[i + k] == needle@[k],
        decreases nn - j,
    {
        if hay.get_char(i + j) != needle.get_char(j) {
            assert(hay@.subrange(i as int, i + nn)[j as int] != needle@[j as int]);
            return false;
        }
        j = j + 1;
    }
    assert(hay@.subrange(i as int, i + nn) =~= needle@);
    true
}

/// Whether `needle` occurs in `hay`, as `str::contains` with a string pattern.
pub fn contains(hay: &str, needle: &str) -> (r: bool)
    ensures
        r == spec_contains(hay@, needle@),
{
    let hn = hay.unicode_len();
    let nn = needle.unicode_len();
    if nn > hn {
        assert forall|i: int| !occurs_at(hay@, needle@, i) by {}
        return false;
    }
    let last = hn - nn;
    let mut i: usize = 0;
    while i < last
        invariant
            hn == hay@.len(),
            nn == needle@.len(),
            last == hn - nn,
            i <= last,
            forall|k: int| 0 <= k < i ==> !occurs_at(hay@, needle@, k),
        decreases last - i,
    {
        if matches_at(hay, needle, i, hn, nn) {
            return true;
        }
        i = i + 1;
    }
    if matches_at(hay, needle, last, hn, nn) {
        return true;
    }
    assert forall|k: int| !occurs_at(hay@, needle@, k) by {
        if 0 <= k && k < last {
        }
    }
    false
}

} // verus!
