//! Small text helpers: appending characters and decimal rendering.
use vstd::prelude::*;

verus! {

/// Relies on `String::push`: the character is appended at the end.
#[verifier::external_body]
pub(crate) fn push_char(s: &mut String, c: char)
    ensures
        final(s)@ == old(s)@.push(c),
{
    s.push(c)
}

/// The decimal digit character for `d`.
pub open spec fn digit_char(d: nat) -> char {
    seq!['0', '1', '2', '3', '4', '5', '6', '7', '8', '9'][d as int]
}

/// Decimal rendering of `n`, most significant digit first, no leading zeros.
pub open spec fn decimal_of(n: nat) -> Seq<char>
    decreases n,
{
    if n < 10 {
        seq![digit_char(n)]
    } else {
        decimal_of(n / 10).push(digit_char(n % 10))
    }
}

/// A decimal rendering is short: at most one digit more than a tenth of the value.
pub proof fn lemma_decimal_len(n: nat)
    ensures
        1 <= decimal_of(n).len() <= 1 + n / 10,
    decreases n,
{
    if n >= 10 {
        lemma_decimal_len(n / 10);
        assert(n / 10 / 10 + 1 <= n / 10) by (nonlinear_arith)
            requires
                n >= 10,
        ;
    }
}

fn digit(d: usize) -> (c: char)
    requires
        d < 10,
    ensures
        c == digit_char(d as nat),
{
    if d == 0 {
        '0'
    } else if d == 1 {
        '1'
    } else if d == 2 {
        '2'
    } else if d == 3 {
        '3'
    } else if d == 4 {
        '4'
    } else if d == 5 {
        '5'
    } else if d == 6 {
        '6'
    } else if d == 7 {
        '7'
    } else if d == 8 {
        '8'
    } else {
        '9'
    }
}

/// Appends the decimal rendering of `n` to `out`.
pub fn push_decimal(out: &mut String, n: usize)
    ensures
        final(out)@ == old(out)@ + decimal_of(n as nat),
    decreases n,
{
    if n < 10 {
        push_char(out, digit(n));
        assert(old(out)@.push(digit_char(n as nat)) =~= old(out)@ + decimal_of(n as nat));
    } else {
        push_decimal(out, n / 10);
        push_char(out, digit(n % 10));
        assert(old(out)@ + decimal_of(n as nat) =~= (old(out)@ + decimal_of(
            (n / 10) as nat,
        )).push(digit_char((n % 10) as nat)));
    }
}

/// Appends every character of `t` to `out`.
pub fn push_str(out: &mut String, t: &str)
    ensures
        final(out)@ == old(out)@ + t@,
{
    let n = t.unicode_len();
    let mut i: usize = 0;
    while i < n
        invariant
            n == t@.len(),
            i <= n,
            out@ == old(out)@ + t@.subrange(0, i as int),
        decreases n - i,
    {
        push_char(out, t.get_char(i));
        assert(t@.subrange(0, i + 1) =~= t@.subrange(0, i as int).push(t@[i as int]));
        i = i + 1;
    }
    assert(t@.subrange(0, n as int) =~= t@);
}

/// `n` spaces.
pub open spec fn spaces(n: nat) -> Seq<char> {
    Seq::new(n, |i: int| ' ')
}

/// Appends `n` copies of `c` to `out`.
pub fn push_repeat(out: &mut String, c: char, n: usize)
    ensures
        final(out)@ == old(out)@ + Seq::new(n as nat, |i: int| c),
{
    let mut i: usize = 0;
    while i < n
        invariant
            i <= n,
            out@ == old(out)@ + Seq::new(i as nat, |k: int| c),
        decreases n - i,
    {
        push_char(out, c);
        assert(Seq::new((i + 1) as nat, |k: int| c) =~= Seq::new(i as nat, |k: int| c).push(c));
        i = i + 1;
    }
}

} // verus!

verus! {

/// The characters of each line of `v`.
pub open spec fn lines_view(v: Seq<String>) -> Seq<Seq<char>> {
    v.map_values(|s: String| s@)
}

/// Appends `line` to `out`.
pub fn push_line(out: &mut Vec<String>, line: String)
    ensures
        lines_view(final(out)@) == lines_view(old(out)@).push(line@),
{
    out.push(line);
    assert(lines_view(final(out)@) =~= lines_view(old(out)@).push(line@));
}

/// `prefix` followed by the quoted rendering of `value`, as a new line.
pub fn field_line(prefix: &str, value: &str) -> (r: String)
    ensures
        r@ == prefix@ + crate::escape::quoted(value@),
{
    let mut r = String::new();
    push_str(&mut r, prefix);
    let q = crate::escape::escape_str(value);
    push_str(&mut r, q.as_str());
    r
}

} // verus!
