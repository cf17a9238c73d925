//! Rendering text as a double-quoted scalar of the report format.
use vstd::prelude::*;
use crate::text::push_char;

verus! {

/// A control character: below 0x20, or 0x7f.
pub open spec fn is_control(c: char) -> bool {
    (c as u32) < 0x20 || (c as u32) == 0x7f
}

/// A character that the escaper does not pass through as it is.
pub open spec fn is_special(c: char) -> bool {
    c == '"' || c == '\\' || is_control(c)
}

/// Lower-case hexadecimal digit for `d`.
pub open spec fn hex_char(d: nat) -> char {
    seq!['0', '1', '2', '3', '4', '5', '6', '7', '8', '9', 'a', 'b', 'c', 'd', 'e', 'f'][d as int]
}

/// The characters that stand for `c` inside the quotes.
pub open spec fn escape_char(c: char) -> Seq<char> {
    if c == '"' {
        seq!['\\', '"']
    } else if c == '\\' {
        seq!['\\', '\\']
    } else if c == '\x08' {
        seq!['\\', 'b']
    } else if c == '\t' {
        seq!['\\', 't']
    } else if c == '\n' {
        seq!['\\', 'n']
    } else if c == '\x0c' {
        seq!['\\', 'f']
    } else if c == '\r' {
        seq!['\\', 'r']
    } else if is_control(c) {
        seq!['\\', 'u', '0', '0', hex_char((c as u32 / 16) as nat), hex_char((c as u32 % 16) as nat)]
    } else {
        seq![c]
    }
}

/// The escaped text between the quotes.
pub open spec fn escape_body(s: Seq<char>) -> Seq<char>
    decreases s.len(),
{
    if s.len() == 0 {
        Seq::empty()
    } else {
        escape_body(s.drop_last()) + escape_char(s.last())
    }
}

/// The whole quoted scalar for `s`.
pub open spec fn quoted(s: Seq<char>) -> Seq<char> {
    seq!['"'] + escape_body(s) + seq!['"']
}

/// Value of a hexadecimal digit of either case, or -1.
pub open spec fn hex_value(c: char) -> int {
    if '0' <= c && c <= '9' {
        c as int - '0' as int
    } else if 'a' <= c && c <= 'f' {
        c as int - 'a' as int + 10
    } else if 'A' <= c && c <= 'F' {
        c as int - 'A' as int + 10
    } else {
        -1
    }
}

/// The character that a one-letter escape of a double-quoted scalar stands for.
pub open spec fn short_escape(e: char) -> Option<char> {
    if e == '0' {
        Some('\0')
    } else if e == 'a' {
        Some('\x07')
    } else if e == 'b' {
        Some('\x08')
    } else if e == 't' {
        Some('\t')
    } else if e == 'n' {
        Some('\n')
    } else if e == 'v' {
        Some('\x0b')
    } else if e == 'f' {
        Some('\x0c')
    } else if e == 'r' {
        Some('\r')
    } else if e == 'e' {
        Some('\x1b')
    } else if e == ' ' || e == '"' || e == '/' || e == '\\' {
        Some(e)
    } else {
        None
    }
}

/// The four characters after `\u` are hexadecimal digits.
pub open spec fn is_hex4(t: Seq<char>) -> bool {
    t.len() >= 6 && hex_value(t[2]) >= 0 && hex_value(t[3]) >= 0 && hex_value(t[4]) >= 0
        && hex_value(t[5]) >= 0
}

/// The code point that the `\uXXXX` escape at the start of `t` stands for.
pub open spec fn hex4_value(t: Seq<char>) -> int {
    ((hex_value(t[2]) * 16 + hex_value(t[3])) * 16 + hex_value(t[4])) * 16 + hex_value(t[5])
}

/// A reader of the inside of a double-quoted scalar: `t`, with its escapes
/// decoded, reads as `s`.
pub open spec fn reads_as(t: Seq<char>, s: Seq<char>) -> bool
    decreases t.len(),
{
    if t.len() == 0 {
        s.len() == 0
    } else if t[0] == '\\' {
        if t.len() >= 2 && short_escape(t[1]) is Some {
            s.len() > 0 && s[0] == short_escape(t[1])->0 && reads_as(t.subrange(2, t.len() as int), s.drop_first())
        } else if t.len() >= 6 && t[1] == 'u' && is_hex4(t) {
            s.len() > 0 && s[0] as int == hex4_value(t) && reads_as(t.subrange(6, t.len() as int), s.drop_first())
        } else {
            false
        }
    } else {
        !is_special(t[0]) && s.len() > 0 && s[0] == t[0] && reads_as(t.drop_first(), s.drop_first())
    }
}

/// A double-quoted scalar `q` reads as `s`.
pub open spec fn reads_quoted(q: Seq<char>, s: Seq<char>) -> bool {
    q.len() >= 2 && q[0] == '"' && q[q.len() - 1] == '"' && reads_as(q.subrange(1, q.len() - 1), s)
}

proof fn lemma_escape_body_concat(a: Seq<char>, b: Seq<char>)
    ensures
        escape_body(a + b) == escape_body(a) + escape_body(b),
    decreases b.len(),
{
    if b.len() == 0 {
        assert(a + b =~= a);
        assert(escape_body(a) + escape_body(b) =~= escape_body(a));
    } else {
        lemma_escape_body_concat(a, b.drop_last());
        assert((a + b).drop_last() =~= a + b.drop_last());
        assert((a + b).last() == b.last());
        assert(escape_body(a + b) =~= escape_body(a) + escape_body(b));
    }
}

proof fn lemma_hex_char_value(d: nat)
    requires
        d < 16,
    ensures
        hex_value(hex_char(d)) == d,
{
    assert(d == 0 || d == 1 || d == 2 || d == 3 || d == 4 || d == 5 || d == 6 || d == 7 || d == 8
        || d == 9 || d == 10 || d == 11 || d == 12 || d == 13 || d == 14 || d == 15);
}

proof fn lemma_reads_escape_char(c: char, rest: Seq<char>, s: Seq<char>)
    requires
        reads_as(rest, s),
    ensures
        reads_as(escape_char(c) + rest, seq![c] + s),
{
    let t = escape_char(c) + rest;
    let u = seq![c] + s;
    assert(u.drop_first() =~= s);
    if is_special(c) {
        if c == '"' || c == '\\' || c == '\x08' || c == '\t' || c == '\n' || c == '\x0c' || c
            == '\r' {
            assert(t.subrange(2, t.len() as int) =~= rest);
        } else {
            let code = c as u32;
            lemma_hex_char_value((code / 16) as nat);
            lemma_hex_char_value((code % 16) as nat);
            assert(t.subrange(6, t.len() as int) =~= rest);
            assert(hex4_value(t) == code as int);
        }
    } else {
        assert(t.drop_first() =~= rest);
    }
}

proof fn lemma_reads_escape_body(s: Seq<char>)
    ensures
        reads_as(escape_body(s), s),
    decreases s.len(),
{
    if s.len() == 0 {
    } else {
        let c = s[0];
        let rest = s.drop_first();
        lemma_reads_escape_body(rest);
        lemma_escape_body_concat(seq![c], rest);
        assert(seq![c] + rest =~= s);
        assert(seq![c].drop_last() =~= Seq::<char>::empty());
        assert(escape_body(Seq::<char>::empty()) == Seq::<char>::empty());
        assert(escape_body(seq![c]) =~= escape_char(c));
        lemma_reads_escape_char(c, escape_body(rest), rest);
    }
}

/// Reading the rendered scalar back yields exactly the original characters.
pub proof fn lemma_escape_round_trip(s: Seq<char>)
    ensures
        reads_quoted(quoted(s), s),
{
    lemma_reads_escape_body(s);
    let q = quoted(s);
    assert(q.subrange(1, q.len() - 1) =~= escape_body(s));
}

proof fn lemma_escape_body_plain(s: Seq<char>)
    requires
        forall|i: int| 0 <= i < s.len() ==> !is_special(#[trigger] s[i]),
    ensures
        escape_body(s) == s,
    decreases s.len(),
{
    if s.len() > 0 {
        let p = s.drop_last();
        assert forall|i: int| 0 <= i < p.len() implies !is_special(#[trigger] p[i]) by {
            assert(p[i] == s[i]);
        }
        lemma_escape_body_plain(p);
        assert(!is_special(s[s.len() - 1]));
        assert(escape_body(s) =~= s);
    }
}

/// Text without quote, backslash or control characters is only wrapped in quotes.
pub proof fn lemma_escape_plain(s: Seq<char>)
    requires
        forall|i: int| 0 <= i < s.len() ==> !is_special(#[trigger] s[i]),
    ensures
        quoted(s) == seq!['"'] + s + seq!['"'],
{
    lemma_escape_body_plain(s);
}

fn hex_digit(d: u32) -> (c: char)
    requires
        d < 16,
    ensures
        c == hex_char(d as nat),
{
    if d == 0 {
        '0'
    } else if d == 1 {
        '1'
    } else if d == 2 {
        '2'
    } else if d == 3 {
        '3'
    } else if d == 4 {
        '4'
    } else if d == 5 {
        '5'
    } else if d == 6 {
        '6'
    } else if d == 7 {
        '7'
    } else if d == 8 {
        '8'
    } else if d == 9 {
        '9'
    } else if d == 10 {
        'a'
    } else if d == 11 {
        'b'
    } else if d == 12 {
        'c'
    } else if d == 13 {
        'd'
    } else if d == 14 {
        'e'
    } else {
        'f'
    }
}

fn push_escape(out: &mut String, c: char)
    ensures
        final(out)@ == old(out)@ + escape_char(c),
{
    let code = c as u32;
    if c == '"' || c == '\\' {
        push_char(out, '\\');
        push_char(out, c);
    } else if c == '\x08' || c == '\t' || c == '\n' || c == '\x0c' || c == '\r' {
        push_char(out, '\\');
        let e = if c == '\x08' {
            'b'
        } else if c == '\t' {
            't'
        } else if c == '\n' {
            'n'
        } else if c == '\x0c' {
            'f'
        } else {
            'r'
        };
        push_char(out, e);
    } else if code < 0x20 || code == 0x7f {
        push_char(out, '\\');
        push_char(out, 'u');
        push_char(out, '0');
        push_char(out, '0');
        push_char(out, hex_digit(code / 16));
        push_char(out, hex_digit(code % 16));
    } else {
        push_char(out, c);
    }
    assert(final(out)@ =~= old(out)@ + escape_char(c));
}

/// Renders `v` as a double-quoted scalar: quote and backslash are escaped,
/// control characters get a short escape where one exists and `\u00NN`
/// otherwise, and every other character passes through unchanged.
pub fn escape_str(v: &str) -> (r: String)
    ensures
        r@ == quoted(v@),
{
    let mut wr = String::new();
    push_char(&mut wr, '"');
    let n = v.unicode_len();
    let mut i: usize = 0;
    while i < n
        invariant
            n == v@.len(),
            i <= n,
            wr@ == seq!['"'] + escape_body(v@.subrange(0, i as int)),
        decreases n - i,
    {
        let c = v.get_char(i);
        push_escape(&mut wr, c);
        assert(v@.subrange(0, i + 1).drop_last() =~= v@.subrange(0, i as int));
        assert(wr@ =~= seq!['"'] + escape_body(v@.subrange(0, i + 1)));
        i = i + 1;
    }
    push_char(&mut wr, '"');
    assert(v@.subrange(0, n as int) =~= v@);
    wr
}

} // verus!
