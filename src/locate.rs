//! Locating a byte offset in a source text and rendering the line it falls
//! on with a caret under it.
use vstd::prelude::*;
use vstd::utf8::{encode_utf8, valid_utf8};
use crate::text::{decimal_of, lines_view, push_char, push_decimal, push_line, push_repeat, push_str, spaces};

verus! {

pub const LF: u8 = 0x0a;

pub const CR: u8 = 0x0d;

/// Number of line feeds in `s`.
pub open spec fn count_lf(s: Seq<u8>) -> nat
    decreases s.len(),
{
    if s.len() == 0 {
        0
    } else {
        count_lf(s.drop_last()) + if s.last() == LF {
            1nat
        } else {
            0nat
        }
    }
}

/// Start of the line that holds position `p`: just after the last line feed
/// before `p`, or 0.
pub open spec fn line_start(s: Seq<u8>, p: int) -> int
    decreases p,
{
    if p <= 0 {
        0
    } else if s[p - 1] == LF {
        p
    } else {
        line_start(s, p - 1)
    }
}

/// End of the line that holds position `p`: the first carriage return or line
/// feed at or after `p`, or the length of `s`.
pub open spec fn line_end(s: Seq<u8>, p: int) -> int
    decreases s.len() - p,
{
    if p >= s.len() {
        s.len() as int
    } else if s[p] == CR || s[p] == LF {
        p
    } else {
        line_end(s, p + 1)
    }
}

/// The 1-based line number of position `p`.
pub open spec fn line_of(s: Seq<u8>, p: int) -> int {
    1 + count_lf(s.subrange(0, p)) as int
}

/// The 1-based column of position `p` within its line.
pub open spec fn column_of(s: Seq<u8>, p: int) -> int {
    p - line_start(s, p) + 1
}

/// Where a byte offset falls in a source text.
#[derive(Clone, Copy, Debug, PartialEq, Eq, Structural)]
pub struct Location {
    /// The offset located.
    pub offset: usize,
    /// 1-based line number.
    pub line: usize,
    /// 1-based column within the line.
    pub column: usize,
    /// Offset of the first byte of the line.
    pub line_start: usize,
    /// Offset just past the last byte of the line, before its terminator.
    pub line_end: usize,
}

/// `l` describes offset `l.offset` of `s`.
pub open spec fn is_location_of(s: Seq<u8>, l: Location) -> bool {
    &&& l.line == line_of(s, l.offset as int)
    &&& l.line_start == line_start(s, l.offset as int)
    &&& l.column == column_of(s, l.offset as int)
    &&& l.line_end == line_end(s, l.offset as int)
}

proof fn lemma_line_start_bounds(s: Seq<u8>, p: int)
    requires
        0 <= p <= s.len(),
    ensures
        0 <= line_start(s, p) <= p,
        line_start(s, p) == 0 || s[line_start(s, p) - 1] == LF,
        forall|j: int| line_start(s, p) <= j < p ==> s[j] != LF,
    decreases p,
{
    if p > 0 && s[p - 1] != LF {
        lemma_line_start_bounds(s, p - 1);
    }
}

proof fn lemma_line_end_bounds(s: Seq<u8>, p: int)
    requires
        0 <= p <= s.len(),
    ensures
        p <= line_end(s, p) <= s.len(),
        line_end(s, p) == s.len() || s[line_end(s, p)] == CR || s[line_end(s, p)] == LF,
        forall|j: int| p <= j < line_end(s, p) ==> s[j] != CR && s[j] != LF,
    decreases s.len() - p,
{
    if p < s.len() && s[p] != CR && s[p] != LF {
        lemma_line_end_bounds(s, p + 1);
    }
}

proof fn lemma_count_lf_bound(s: Seq<u8>)
    ensures
        count_lf(s) <= s.len(),
    decreases s.len(),
{
    if s.len() > 0 {
        lemma_count_lf_bound(s.drop_last());
    }
}

/// Finds where `offset` falls in `src`: every offset up to the length of
/// `src` is located, the end of the text included.
pub fn locate(src: &[u8], offset: usize) -> (r: Option<Location>)
    requires
        src@.len() < usize::MAX,
    ensures
        r is Some <==> offset <= src@.len(),
        r is Some ==> r->0.offset == offset && is_location_of(src@, r->0),
{
    let n = src.len();
    if offset > n {
        return None;
    }
    let mut pos: usize = 0;
    let mut line: usize = 1;
    let mut start: usize = 0;
    while pos < offset
        invariant
            n == src@.len(),
            n < usize::MAX,
            pos <= offset <= n,
            line == line_of(src@, pos as int),
            start == line_start(src@, pos as int),
        decreases offset - pos,
    {
        proof {
            assert(src@.subrange(0, pos + 1).drop_last() =~= src@.subrange(0, pos as int));
            lemma_count_lf_bound(src@.subrange(0, pos as int));
        }
        if src[pos] == LF {
            line = line + 1;
            start = pos + 1;
        }
        pos = pos + 1;
    }
    let mut end: usize = offset;
    while end < n && src[end] != CR && src[end] != LF
        invariant
            n == src@.len(),
            offset <= end <= n,
            line_end(src@, offset as int) == line_end(src@, end as int),
        decreases n - end,
    {
        end = end + 1;
    }
    proof {
        lemma_line_start_bounds(src@, offset as int);
    }
    Some(Location { offset, line, column: offset - start + 1, line_start: start, line_end: end })
}

/// What `String::from_utf8_lossy` makes of a byte sequence.
pub uninterp spec fn lossy_of(b: Seq<u8>) -> Seq<char>;

/// Relies on `String::from_utf8_lossy`: it decodes the bytes, replacing
/// invalid sequences, and valid UTF-8 comes back as the text it encodes.
#[verifier::external_body]
fn decode_lossy(b: &[u8], from: usize, to: usize) -> (r: String)
    requires
        from <= to <= b@.len(),
    ensures
        r@ == lossy_of(b@.subrange(from as int, to as int)),
        valid_utf8(b@.subrange(from as int, to as int)) ==> encode_utf8(r@) == b@.subrange(
            from as int,
            to as int,
        ),
{
    String::from_utf8_lossy(&b[from..to]).into_owned()
}

/// The lines of the diagnostic for `l` in the text `s` of the file at `path`:
/// a `path:line:column` header, an empty gutter line, the line's text after
/// its number, and a caret under the offset.
pub open spec fn diagnostic_lines(path: Seq<char>, s: Seq<u8>, l: Location) -> Seq<Seq<char>> {
    let num = decimal_of(l.line as nat);
    let gutter = spaces(num.len() + 1);
    seq![
        seq![' '] + path + seq![':'] + num + seq![':'] + decimal_of(l.column as nat),
        gutter + seq!['|'],
        num + seq![' ', '|', ' '] + lossy_of(s.subrange(l.line_start as int, l.line_end as int)),
        gutter + seq!['|', ' '] + spaces((l.offset - l.line_start) as nat) + seq!['^'],
    ]
}

/// The diagnostic for a parse failure at `offset` of `src`, the text of the
/// file at `path`; `None` where the offset lies past the end of the text.
/// Where the line's bytes are valid UTF-8, the text shown is exactly those bytes.
pub fn print_parse_error(path: &str, src: &[u8], offset: usize) -> (r: Option<Vec<String>>)
    requires
        src@.len() < usize::MAX,
    ensures
        r is Some <==> offset <= src@.len(),
        r is Some ==> exists|l: Location|
            {
                &&& l.offset == offset
                &&& is_location_of(src@, l)
                &&& lines_view(r->0@) == diagnostic_lines(path@, src@, l)
                &&& valid_utf8(src@.subrange(l.line_start as int, l.line_end as int)) ==> encode_utf8(
                    lossy_of(src@.subrange(l.line_start as int, l.line_end as int)),
                ) == src@.subrange(l.line_start as int, l.line_end as int)
            },
{
    let l = match locate(src, offset) {
        Some(l) => l,
        None => return None,
    };
    proof {
        lemma_line_start_bounds(src@, offset as int);
        lemma_line_end_bounds(src@, offset as int);
    }
    let mut num = String::new();
    push_decimal(&mut num, l.line);
    let w = num.unicode_len();
    proof {
        crate::text::lemma_decimal_len(l.line as nat);
    }
    let mut out: Vec<String> = Vec::new();
    assert(lines_view(out@) =~= Seq::<Seq<char>>::empty());

    let mut head = String::new();
    push_char(&mut head, ' ');
    push_str(&mut head, path);
    push_char(&mut head, ':');
    push_str(&mut head, num.as_str());
    push_char(&mut head, ':');
    push_decimal(&mut head, l.column);
    let ghost h0 = head@;
    push_line(&mut out, head);

    let mut gutter = String::new();
    push_repeat(&mut gutter, ' ', w + 1);
    push_char(&mut gutter, '|');
    let ghost h1 = gutter@;
    push_line(&mut out, gutter);

    let mut body = String::new();
    push_str(&mut body, num.as_str());
    push_char(&mut body, ' ');
    push_char(&mut body, '|');
    push_char(&mut body, ' ');
    let t = decode_lossy(src, l.line_start, l.line_end);
    push_str(&mut body, t.as_str());
    let ghost h2 = body@;
    push_line(&mut out, body);

    let mut marks = String::new();
    push_repeat(&mut marks, ' ', w + 1);
    push_char(&mut marks, '|');
    push_char(&mut marks, ' ');
    push_repeat(&mut marks, ' ', offset - l.line_start);
    push_char(&mut marks, '^');
    let ghost h3 = marks@;
    push_line(&mut out, marks);

    let ghost d = diagnostic_lines(path@, src@, l);
    assert(lines_view(out@) =~= seq![h0, h1, h2, h3]);
    assert(h0 =~= d[0]);
    assert(h1 =~= d[1]);
    assert(h2 =~= d[2]);
    assert(h3 =~= d[3]);
    assert(lines_view(out@) =~= d);
    Some(out)
}

/// An offset just after the `k`-th line feed lies on line `k + 1`, column 1;
/// the start of the text, after no line feed, is line 1, column 1.
pub proof fn lemma_after_line_feed(s: Seq<u8>, p: int, k: nat)
    requires
        0 <= p <= s.len(),
        p == 0 || s[p - 1] == LF,
        count_lf(s.subrange(0, p)) == k,
    ensures
        line_of(s, p) == k + 1,
        column_of(s, p) == 1,
{
    if p == 0 {
        assert(s.subrange(0, 0) =~= Seq::<u8>::empty());
    }
}

/// The line shown for an offset runs from just after the nearest line feed
/// before it (or the start) to just before the nearest carriage return or
/// line feed at or after it (or the end), and holds no line feed.
pub proof fn lemma_line_bounds(s: Seq<u8>, p: int)
    requires
        0 <= p <= s.len(),
    ensures
        0 <= line_start(s, p) <= p <= line_end(s, p) <= s.len(),
        line_start(s, p) == 0 || s[line_start(s, p) - 1] == LF,
        line_end(s, p) == s.len() || s[line_end(s, p)] == CR || s[line_end(s, p)] == LF,
        forall|j: int| line_start(s, p) <= j < line_end(s, p) ==> s[j] != LF,
{
    lemma_line_start_bounds(s, p);
    lemma_line_end_bounds(s, p);
}

} // verus!
