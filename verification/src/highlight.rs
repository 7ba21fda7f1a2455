use vstd::prelude::*;

use crate::text::{byte_slice, chars_of, string_of};
use vstd::utf8::{encode_utf8, is_char_boundary};

verus! {

/// What a piece of a markdown line is, which decides how it looks.
#[derive(Debug, Clone, Copy, PartialEq, Eq, Structural)]
pub enum SpanKind {
    /// Ordinary text.
    Plain,
    /// Markers and rules, shown dimmed.
    Dim,
    Heading1,
    Heading2,
    Heading3,
    /// The text of a block quote.
    Quote,
    /// A code fence line.
    Fence,
    /// A list bullet or number.
    Bullet,
    /// The marker of an open task.
    TaskOpen,
    /// The marker of a done task.
    TaskDone,
    /// The text of a done task.
    DoneText,
    /// Inline code.
    Code,
    BoldItalic,
    Bold,
    Italic,
    /// A link to a URL.
    Link,
    /// A link to another note.
    WikiLink,
}

/// Whether a piece is covered by a search hit, and whether that hit is the current one.
#[derive(Debug, Clone, Copy, PartialEq, Eq, Structural)]
pub enum HitMark {
    NoHit,
    Hit,
    CurrentHit,
}

/// How a piece looks: what it is, and how search hits cover it.
#[derive(Debug, Clone, Copy, PartialEq, Eq, Structural)]
pub struct SpanStyle {
    pub kind: SpanKind,
    pub hit: HitMark,
}

/// A piece of text with its style.
#[derive(Debug, Clone)]
pub struct StyledSpan {
    pub text: String,
    pub style: SpanStyle,
}

/// A piece as plain values.
pub type SpanView = (Seq<char>, SpanStyle);

/// The views of styled pieces.
pub open spec fn span_views(v: Seq<StyledSpan>) -> Seq<SpanView> {
    v.map_values(|s: StyledSpan| (s.text@, s.style))
}

/// The style of a piece of the given kind, not covered by a search hit.
pub open spec fn plain_style(k: SpanKind) -> SpanStyle {
    SpanStyle { kind: k, hit: HitMark::NoHit }
}

/// The style of a piece of the given kind, not covered by a search hit.
pub fn style_of(k: SpanKind) -> (r: SpanStyle)
    ensures
        r == plain_style(k),
{
    SpanStyle { kind: k, hit: HitMark::NoHit }
}

/// The first index from `j` on holding `c`, or the length.
pub open spec fn scan_char(cs: Seq<char>, c: char, j: int) -> int
    decreases cs.len() - j,
{
    if j >= cs.len() {
        j
    } else if cs[j] == c {
        j
    } else {
        scan_char(cs, c, j + 1)
    }
}

/// The first index from `j` on where `a` is followed by `b`, or the last
/// index from which no such pair fits.
pub open spec fn scan_pair(cs: Seq<char>, a: char, b: char, j: int) -> int
    decreases cs.len() - j,
{
    if j + 1 >= cs.len() {
        j
    } else if cs[j] == a && cs[j + 1] == b {
        j
    } else {
        scan_pair(cs, a, b, j + 1)
    }
}

/// The first index from `j` on where three stars begin, or the last index
/// from which no three characters fit.
pub open spec fn scan_stars3(cs: Seq<char>, j: int) -> int
    decreases cs.len() - j,
{
    if j + 2 >= cs.len() {
        j
    } else if cs[j] == '*' && cs[j + 1] == '*' && cs[j + 2] == '*' {
        j
    } else {
        scan_stars3(cs, j + 1)
    }
}

/// The characters of `cs` from `a` to `b`, where `b` may be cut at the end.
pub open spec fn slice(cs: Seq<char>, a: int, b: int) -> Seq<char> {
    cs.subrange(a, b)
}

/// The markup that starts at index `i` of a line, if any: where reading
/// goes on after it, the text of the piece, and what it is. Inline code runs
/// to the next backtick; `***`, `**`, `*` and `_` to the matching marker;
/// a link needs `](` and a closing `)`; a wiki link runs to `]]`. A marker
/// that is not closed runs to the end of the line, and the piece shows it closed.
pub open spec fn inline_token(cs: Seq<char>, i: int) -> Option<(int, Seq<char>, SpanKind)> {
    let len = cs.len() as int;
    if cs[i] == '`' {
        let end = scan_char(cs, '`', i + 1);
        Some((end + 1, seq!['`'] + slice(cs, i + 1, end) + seq!['`'], SpanKind::Code))
    } else if len - i > 2 && cs[i] == '*' && cs[i + 1] == '*' && cs[i + 2] == '*' {
        let end = scan_stars3(cs, i + 3);
        Some((end + 3, seq!['*', '*', '*'] + slice(cs, i + 3, end) + seq!['*', '*', '*'], SpanKind::BoldItalic))
    } else if len - i > 1 && cs[i] == '*' && cs[i + 1] == '*' {
        let end = scan_pair(cs, '*', '*', i + 2);
        Some((end + 2, seq!['*', '*'] + slice(cs, i + 2, end) + seq!['*', '*'], SpanKind::Bold))
    } else if (cs[i] == '*' || cs[i] == '_') && len - i > 1 {
        let m = cs[i];
        let end = scan_char(cs, m, i + 1);
        Some((end + 1, seq![m] + slice(cs, i + 1, end) + seq![m], SpanKind::Italic))
    } else if cs[i] == '[' && link_end(cs, i) < len {
        let be = scan_char(cs, ']', i + 1);
        let pe = link_end(cs, i);
        Some(
            (
                pe + 1,
                seq!['['] + slice(cs, i + 1, be) + seq![']', '('] + slice(cs, be + 2, pe) + seq![')'],
                SpanKind::Link,
            ),
        )
    } else if len - i > 1 && cs[i] == '[' && cs[i + 1] == '[' {
        let end = scan_pair(cs, ']', ']', i + 2);
        Some((end + 2, seq!['[', '['] + slice(cs, i + 2, end) + seq![']', ']'], SpanKind::WikiLink))
    } else {
        None
    }
}

/// For `[` at `i`: the index of the `)` that closes a link `[text](url)`, or
/// the length where the text is not followed by `(` or no `)` follows.
pub open spec fn link_end(cs: Seq<char>, i: int) -> int {
    let len = cs.len() as int;
    let be = scan_char(cs, ']', i + 1);
    if be < len && len - be > 1 && cs[be + 1] == '(' {
        scan_char(cs, ')', be + 2)
    } else {
        len
    }
}

/// `cur`, the plain text gathered so far, as a piece, if it is not empty.
pub open spec fn flush(cur: Seq<char>) -> Seq<SpanView> {
    if cur.len() > 0 {
        seq![(cur, plain_style(SpanKind::Plain))]
    } else {
        Seq::empty()
    }
}

proof fn lemma_scan_char(cs: Seq<char>, c: char, j: int)
    requires
        0 <= j <= cs.len(),
    ensures
        j <= scan_char(cs, c, j) <= cs.len(),
        scan_char(cs, c, j) < cs.len() ==> cs[scan_char(cs, c, j)] == c,
        forall|k: int| j <= k < scan_char(cs, c, j) ==> cs[k] != c,
    decreases cs.len() - j,
{
    if j < cs.len() && cs[j] != c {
        lemma_scan_char(cs, c, j + 1);
    }
}

proof fn lemma_scan_pair(cs: Seq<char>, a: char, b: char, j: int)
    requires
        0 <= j <= cs.len(),
    ensures
        j <= scan_pair(cs, a, b, j) <= cs.len(),
        scan_pair(cs, a, b, j) + 1 < cs.len() ==> cs[scan_pair(cs, a, b, j)] == a && cs[scan_pair(
            cs,
            a,
            b,
            j,
        ) + 1] == b,
    decreases cs.len() - j,
{
    if j + 1 < cs.len() && !(cs[j] == a && cs[j + 1] == b) {
        lemma_scan_pair(cs, a, b, j + 1);
    }
}

proof fn lemma_scan_stars3(cs: Seq<char>, j: int)
    requires
        0 <= j <= cs.len(),
    ensures
        j <= scan_stars3(cs, j) <= cs.len(),
    decreases cs.len() - j,
{
    if j + 2 < cs.len() && !(cs[j] == '*' && cs[j + 1] == '*' && cs[j + 2] == '*') {
        lemma_scan_stars3(cs, j + 1);
    }
}

/// Where reading goes on after markup at `i` lies after `i`, and at most
/// three characters past the end.
pub proof fn lemma_token_advances(cs: Seq<char>, i: int)
    requires
        0 <= i < cs.len(),
    ensures
        inline_token(cs, i) matches Some((ni, _, _)) ==> i < ni <= cs.len() + 3,
{
    let len = cs.len() as int;
    lemma_scan_char(cs, '`', i + 1);
    lemma_scan_char(cs, cs[i], i + 1);
    lemma_scan_char(cs, ']', i + 1);
    if i + 3 <= len {
        lemma_scan_stars3(cs, i + 3);
    }
    if i + 2 <= len {
        lemma_scan_pair(cs, '*', '*', i + 2);
        lemma_scan_pair(cs, ']', ']', i + 2);
    }
    let be = scan_char(cs, ']', i + 1);
    if be + 2 <= len {
        lemma_scan_char(cs, ')', be + 2);
    }
}

/// The pieces of a line from index `i` on, where `cur` holds the plain text
/// gathered before `i`: plain text runs up to the next markup, which becomes
/// a piece of its own.
pub open spec fn inline_from(cs: Seq<char>, i: int, cur: Seq<char>) -> Seq<SpanView>
    decreases cs.len() + 4 - i,
{
    if i < 0 || i >= cs.len() {
        flush(cur)
    } else {
        proof {
            lemma_token_advances(cs, i);
        }
        match inline_token(cs, i) {
            Some((ni, t, k)) => flush(cur) + seq![(t, plain_style(k))] + inline_from(cs, ni, Seq::empty()),
            None => inline_from(cs, i + 1, cur.push(cs[i])),
        }
    }
}

/// The pieces of a line with inline markdown: bold, italic, code and links.
pub open spec fn inline_spans(cs: Seq<char>) -> Seq<SpanView> {
    inline_from(cs, 0, Seq::empty())
}

/// Appends the characters of `cs` from `a` to `b`.
fn push_range(out: &mut Vec<char>, cs: &Vec<char>, a: usize, b: usize)
    requires
        a <= b <= cs@.len(),
    ensures
        final(out)@ == old(out)@ + cs@.subrange(a as int, b as int),
{
    let mut k = a;
    while k < b
        invariant
            a <= k <= b,
            b <= cs@.len(),
            out@ == old(out)@ + cs@.subrange(a as int, k as int),
        decreases b - k,
    {
        out.push(cs[k]);
        assert(cs@.subrange(a as int, k + 1) =~= cs@.subrange(a as int, k as int).push(cs@[k as int]));
        k += 1;
    }
}

/// `open`, the characters of `cs` from `a` to `b`, then `close`.
fn wrapped(open: &[char], cs: &Vec<char>, a: usize, b: usize, close: &[char]) -> (r: Vec<char>)
    requires
        a <= b <= cs@.len(),
    ensures
        r@ == open@ + cs@.subrange(a as int, b as int) + close@,
{
    let mut t: Vec<char> = Vec::new();
    let mut k: usize = 0;
    while k < open.len()
        invariant
            k <= open@.len(),
            t@ == open@.take(k as int),
        decreases open@.len() - k,
    {
        t.push(open[k]);
        assert(open@.take(k + 1) =~= open@.take(k as int).push(open@[k as int]));
        k += 1;
    }
    assert(open@.take(open@.len() as int) =~= open@);
    push_range(&mut t, cs, a, b);
    let mut k: usize = 0;
    let ghost mid = t@;
    while k < close.len()
        invariant
            k <= close@.len(),
            t@ == mid + close@.take(k as int),
        decreases close@.len() - k,
    {
        t.push(close[k]);
        assert(close@.take(k + 1) =~= close@.take(k as int).push(close@[k as int]));
        k += 1;
    }
    assert(close@.take(close@.len() as int) =~= close@);
    t
}

/// The first index from `j` on holding `c`, or the length.
fn find_char(cs: &Vec<char>, c: char, j: usize) -> (r: usize)
    requires
        j <= cs@.len(),
    ensures
        r == scan_char(cs@, c, j as int),
{
    let mut k = j;
    while k < cs.len() && cs[k] != c
        invariant
            j <= k <= cs@.len(),
            scan_char(cs@, c, j as int) == scan_char(cs@, c, k as int),
        decreases cs@.len() - k,
    {
        k += 1;
    }
    k
}

/// The first index from `j` on where `a` is followed by `b`, or the last
/// index from which no such pair fits.
fn find_pair(cs: &Vec<char>, a: char, b: char, j: usize) -> (r: usize)
    requires
        j <= cs@.len(),
    ensures
        r == scan_pair(cs@, a, b, j as int),
{
    let mut k = j;
    while k < cs.len() && cs.len() - k > 1 && !(cs[k] == a && cs[k + 1] == b)
        invariant
            j <= k <= cs@.len(),
            scan_pair(cs@, a, b, j as int) == scan_pair(cs@, a, b, k as int),
        decreases cs@.len() - k,
    {
        k += 1;
    }
    k
}

/// The first index from `j` on where three stars begin, or the last index
/// from which no three characters fit.
fn find_stars3(cs: &Vec<char>, j: usize) -> (r: usize)
    requires
        j <= cs@.len(),
    ensures
        r == scan_stars3(cs@, j as int),
{
    let mut k = j;
    while k < cs.len() && cs.len() - k > 2 && !(cs[k] == '*' && cs[k + 1] == '*' && cs[k + 2] == '*')
        invariant
            j <= k <= cs@.len(),
            scan_stars3(cs@, j as int) == scan_stars3(cs@, k as int),
        decreases cs@.len() - k,
    {
        k += 1;
    }
    k
}

/// `end + n`, or `len` where that lies past it.
fn step_past(end: usize, n: usize, len: usize) -> (r: usize)
    requires
        end <= len,
    ensures
        r == if end + n < len {
            end + n
        } else {
            len as int
        },
{
    if len - end > n {
        end + n
    } else {
        len
    }
}

/// Reading on from past the end of a line gives what reading from its end gives.
proof fn lemma_inline_past_end(cs: Seq<char>, n: int)
    requires
        n >= cs.len(),
    ensures
        inline_from(cs, n, Seq::empty()) == inline_from(cs, cs.len() as int, Seq::empty()),
{
}

/// The markup that starts at index `i` of the line, if any.
fn next_token(cs: &Vec<char>, i: usize) -> (r: Option<(usize, Vec<char>, SpanKind)>)
    requires
        i < cs@.len(),
    ensures
        match r {
            Some((ni, t, k)) => inline_token(cs@, i as int) matches Some((n, tt, kk)) && tt == t@ && kk
                == k && ni == if n < cs@.len() {
                n
            } else {
                cs@.len() as int
            },
            None => inline_token(cs@, i as int) is None,
        },
{
    let len = cs.len();
    proof {
        lemma_scan_char(cs@, '`', i + 1);
        lemma_scan_char(cs@, cs@[i as int], i + 1);
        lemma_scan_char(cs@, ']', i + 1);
        if i + 3 <= len {
            lemma_scan_stars3(cs@, i + 3);
        }
        if i + 2 <= len {
            lemma_scan_pair(cs@, '*', '*', i + 2);
            lemma_scan_pair(cs@, ']', ']', i + 2);
        }
    }
    if cs[i] == '`' {
        let end = find_char(cs, '`', i + 1);
        let t = wrapped(&['`'], cs, i + 1, end, &['`']);
        return Some((step_past(end, 1, len), t, SpanKind::Code));
    }
    if len - i > 2 && cs[i] == '*' && cs[i + 1] == '*' && cs[i + 2] == '*' {
        let end = find_stars3(cs, i + 3);
        let t = wrapped(&['*', '*', '*'], cs, i + 3, end, &['*', '*', '*']);
        return Some((step_past(end, 3, len), t, SpanKind::BoldItalic));
    }
    if len - i > 1 && cs[i] == '*' && cs[i + 1] == '*' {
        let end = find_pair(cs, '*', '*', i + 2);
        let t = wrapped(&['*', '*'], cs, i + 2, end, &['*', '*']);
        return Some((step_past(end, 2, len), t, SpanKind::Bold));
    }
    if (cs[i] == '*' || cs[i] == '_') && len - i > 1 {
        let m = cs[i];
        let end = find_char(cs, m, i + 1);
        let t = wrapped(&[m], cs, i + 1, end, &[m]);
        return Some((step_past(end, 1, len), t, SpanKind::Italic));
    }
    if cs[i] == '[' {
        let be = find_char(cs, ']', i + 1);
        if be < len && len - be > 1 && cs[be + 1] == '(' {
            let pe = find_char(cs, ')', be + 2);
            proof {
                lemma_scan_char(cs@, ')', be + 2);
            }
            if pe < len {
                let mut t = wrapped(&['['], cs, i + 1, be, &[']', '(']);
                push_range(&mut t, cs, be + 2, pe);
                t.push(')');
                return Some((step_past(pe, 1, len), t, SpanKind::Link));
            }
        }
    }
    if len - i > 1 && cs[i] == '[' && cs[i + 1] == '[' {
        let end = find_pair(cs, ']', ']', i + 2);
        let t = wrapped(&['[', '['], cs, i + 2, end, &[']', ']']);
        return Some((step_past(end, 2, len), t, SpanKind::WikiLink));
    }
    None
}

/// Splits a line into pieces by its inline markdown: bold, italic, code and links.
pub fn parse_inline(line: &str) -> (r: Vec<StyledSpan>)
    ensures
        span_views(r@) == inline_spans(line@),
{
    let cs = chars_of(line);
    inline_pieces(&cs)
}

/// Splits the characters of a line into pieces by their inline markdown.
fn inline_pieces(cs: &Vec<char>) -> (r: Vec<StyledSpan>)
    ensures
        span_views(r@) == inline_spans(cs@),
{
    let len = cs.len();
    let mut spans: Vec<StyledSpan> = Vec::new();
    let mut current: Vec<char> = Vec::new();
    let mut i: usize = 0;
    while i < len
        invariant
            len == cs@.len(),
            span_views(spans@) + inline_from(cs@, i as int, current@) == inline_spans(cs@),
        decreases len + 4 - i,
    {
        let ghost before = span_views(spans@);
        let ghost cur0 = current@;
        proof {
            lemma_token_advances(cs@, i as int);
        }
        match next_token(cs, i) {
            Some((ni, t, k)) => {
                if current.len() > 0 {
                    spans.push(StyledSpan { text: string_of(current.as_slice()), style: style_of(SpanKind::Plain) });
                }
                let ghost mid = span_views(spans@);
                assert(mid =~= before + flush(cur0));
                current = Vec::new();
                spans.push(StyledSpan { text: string_of(t.as_slice()), style: style_of(k) });
                assert(span_views(spans@) =~= mid.push((t@, plain_style(k))));
                proof {
                    let n = match inline_token(cs@, i as int) {
                        Some((n, _, _)) => n,
                        None => 0,
                    };
                    if n >= len {
                        lemma_inline_past_end(cs@, n);
                    }
                    assert(inline_from(cs@, ni as int, Seq::empty()) == inline_from(cs@, n, Seq::empty()));
                }
                assert(span_views(spans@) + inline_from(cs@, ni as int, current@) =~= before + (flush(
                    cur0,
                ) + seq![(t@, plain_style(k))] + inline_from(cs@, ni as int, Seq::empty())));
                i = ni;
            },
            None => {
                current.push(cs[i]);
                i += 1;
            },
        }
    }
    if current.len() > 0 {
        let ghost before = span_views(spans@);
        spans.push(StyledSpan { text: string_of(current.as_slice()), style: style_of(SpanKind::Plain) });
        assert(span_views(spans@) =~= before + flush(current@));
    }
    assert(span_views(spans@) + Seq::<SpanView>::empty() =~= span_views(spans@));
    spans
}

/// `cs` begins with `p`.
pub open spec fn has_prefix(cs: Seq<char>, p: Seq<char>) -> bool {
    p.len() <= cs.len() && cs.take(p.len() as int) == p
}

/// The characters with the Unicode White_Space property, which
/// `char::is_whitespace` tests.
pub open spec fn is_white_space(c: char) -> bool {
    ||| '\t' <= c <= '\r'
    ||| c == ' '
    ||| c == '\u{85}'
    ||| c == '\u{a0}'
    ||| c == '\u{1680}'
    ||| '\u{2000}' <= c <= '\u{200a}'
    ||| c == '\u{2028}'
    ||| c == '\u{2029}'
    ||| c == '\u{202f}'
    ||| c == '\u{205f}'
    ||| c == '\u{3000}'
}

/// Whether `c` has the Unicode White_Space property.
pub fn white_space(c: char) -> (r: bool)
    ensures
        r == is_white_space(c),
{
    ('\t' <= c && c <= '\r') || c == ' ' || c == '\u{85}' || c == '\u{a0}' || c == '\u{1680}'
        || ('\u{2000}' <= c && c <= '\u{200a}') || c == '\u{2028}' || c == '\u{2029}' || c
        == '\u{202f}' || c == '\u{205f}' || c == '\u{3000}'
}

/// The number of white-space characters that `cs` begins with, from `j` on.
pub open spec fn leading_space(cs: Seq<char>, j: int) -> int
    decreases cs.len() - j,
{
    if j < 0 || j >= cs.len() || !is_white_space(cs[j]) {
        j
    } else {
        leading_space(cs, j + 1)
    }
}

/// Every character is an ASCII digit (true of no characters).
pub open spec fn all_digits(s: Seq<char>) -> bool {
    forall|k: int| 0 <= k < s.len() ==> '0' <= #[trigger] s[k] <= '9'
}

/// The text after the leading white space, where an ordered-list marker is looked for.
pub open spec fn list_body(cs: Seq<char>) -> Seq<char> {
    cs.skip(leading_space(cs, 0))
}

/// Where the first `". "` in the text after the leading white space begins, if anywhere.
pub open spec fn list_dot(cs: Seq<char>) -> Option<int> {
    crate::text::first_occurrence(list_body(cs), seq!['.', ' '], 0)
}

/// The line is an ordered-list item: after its leading white space, only
/// ASCII digits (perhaps none) come before the first `". "`.
pub open spec fn is_ordered_item(cs: Seq<char>) -> bool {
    list_dot(cs) matches Some(p) && all_digits(list_body(cs).take(p))
}

/// A piece of one style, not covered by a search hit.
pub open spec fn piece(t: Seq<char>, k: SpanKind) -> SpanView {
    (t, plain_style(k))
}

/// The pieces of a markdown line: headings, rules, quotes, code fences and
/// list markers are recognised at the start of the line; the rest is split by
/// its inline markdown.
pub open spec fn markdown_spans(cs: Seq<char>) -> Seq<SpanView> {
    if has_prefix(cs, seq!['#', '#', '#', ' ']) {
        seq![piece(seq!['#', '#', '#', ' '], SpanKind::Dim), piece(cs.skip(4), SpanKind::Heading3)]
    } else if has_prefix(cs, seq!['#', '#', ' ']) {
        seq![piece(seq!['#', '#', ' '], SpanKind::Dim), piece(cs.skip(3), SpanKind::Heading2)]
    } else if has_prefix(cs, seq!['#', ' ']) {
        seq![piece(seq!['#', ' '], SpanKind::Dim), piece(cs.skip(2), SpanKind::Heading1)]
    } else if cs == seq!['-', '-', '-'] || cs == seq!['*', '*', '*'] || cs == seq!['=', '=', '='] {
        seq![piece(cs, SpanKind::Dim)]
    } else if has_prefix(cs, seq!['>', ' ']) {
        seq![piece(seq!['>', ' '], SpanKind::Dim), piece(cs.skip(2), SpanKind::Quote)]
    } else if has_prefix(cs, seq!['`', '`', '`']) {
        seq![piece(cs, SpanKind::Fence)]
    } else if has_prefix(cs, seq!['-', ' ']) || has_prefix(cs, seq!['*', ' ']) {
        seq![piece(cs.take(2), SpanKind::Bullet)] + inline_spans(cs.skip(2))
    } else if has_prefix(cs, seq![' ', ' ', '-', ' ']) || has_prefix(cs, seq![' ', ' ', '*', ' ']) {
        seq![piece(cs.take(4), SpanKind::Bullet)] + inline_spans(cs.skip(4))
    } else if is_ordered_item(cs) {
        let lead = leading_space(cs, 0);
        let body = list_body(cs);
        let p = list_dot(cs)->0;
        seq![piece(cs.take(lead) + body.take(p + 2), SpanKind::Bullet)] + inline_spans(body.skip(p + 2))
    } else if has_prefix(cs, seq!['-', ' ', '[', ' ', ']', ' ']) {
        seq![piece(seq!['-', ' ', '[', ' ', ']', ' '], SpanKind::TaskOpen), piece(cs.skip(6), SpanKind::Plain)]
    } else if has_prefix(cs, seq!['-', ' ', '[', 'x', ']', ' ']) || has_prefix(
        cs,
        seq!['-', ' ', '[', 'X', ']', ' '],
    ) {
        seq![piece(seq!['-', ' ', '[', 'x', ']', ' '], SpanKind::TaskDone), piece(cs.skip(6), SpanKind::DoneText)]
    } else {
        inline_spans(cs)
    }
}

/// Whether `cs` begins with `p`.
fn starts_with(cs: &Vec<char>, p: &[char]) -> (r: bool)
    ensures
        r == has_prefix(cs@, p@),
{
    if p.len() > cs.len() {
        return false;
    }
    let mut k: usize = 0;
    while k < p.len()
        invariant
            p@.len() <= cs@.len(),
            k <= p@.len(),
            forall|j: int| 0 <= j < k ==> cs@[j] == p@[j],
        decreases p@.len() - k,
    {
        if cs[k] != p[k] {
            assert(cs@.take(p@.len() as int)[k as int] != p@[k as int]);
            return false;
        }
        k += 1;
    }
    assert(cs@.take(p@.len() as int) =~= p@);
    true
}

/// Whether `cs` is exactly `p`.
fn is_exactly(cs: &Vec<char>, p: &[char]) -> (r: bool)
    ensures
        r == (cs@ == p@),
{
    let b = cs.len() == p.len() && starts_with(cs, p);
    proof {
        if cs@.len() == p@.len() {
            assert(cs@.take(p@.len() as int) =~= cs@);
        }
    }
    b
}

/// The characters of `cs` from `a` on.
fn suffix(cs: &Vec<char>, a: usize) -> (r: Vec<char>)
    requires
        a <= cs@.len(),
    ensures
        r@ == cs@.skip(a as int),
{
    let mut t: Vec<char> = Vec::new();
    push_range(&mut t, cs, a, cs.len());
    assert(cs@.subrange(a as int, cs@.len() as int) =~= cs@.skip(a as int));
    t
}

/// A piece of one style, not covered by a search hit.
fn make_piece(t: &[char], k: SpanKind) -> (r: StyledSpan)
    ensures
        (r.text@, r.style) == piece(t@, k),
{
    StyledSpan { text: string_of(t), style: style_of(k) }
}

/// A marker piece followed by the inline pieces of the rest of the line.
fn marker_then_inline(cs: &Vec<char>, n: usize, k: SpanKind) -> (r: Vec<StyledSpan>)
    requires
        n <= cs@.len(),
    ensures
        span_views(r@) == seq![piece(cs@.take(n as int), k)] + inline_spans(cs@.skip(n as int)),
{
    let mut head: Vec<char> = Vec::new();
    push_range(&mut head, cs, 0, n);
    assert(cs@.subrange(0, n as int) =~= cs@.take(n as int));
    let rest = suffix(cs, n);
    let mut out: Vec<StyledSpan> = Vec::new();
    out.push(make_piece(head.as_slice(), k));
    let tail = inline_pieces(&rest);
    let ghost a = span_views(out@);
    let ghost b = span_views(tail@);
    let mut tail = tail;
    out.append(&mut tail);
    assert(span_views(out@) =~= a + b);
    out
}

/// Two pieces: a marker in one style and the rest of the line in another.
fn two_pieces(marker: &[char], cs: &Vec<char>, n: usize, k1: SpanKind, k2: SpanKind) -> (r: Vec<StyledSpan>)
    requires
        n <= cs@.len(),
    ensures
        span_views(r@) == seq![piece(marker@, k1), piece(cs@.skip(n as int), k2)],
{
    let rest = suffix(cs, n);
    let mut out: Vec<StyledSpan> = Vec::new();
    out.push(make_piece(marker, k1));
    out.push(make_piece(rest.as_slice(), k2));
    assert(span_views(out@) =~= seq![piece(marker@, k1), piece(cs@.skip(n as int), k2)]);
    out
}

/// One piece of one style holding the whole line.
fn whole_line(cs: &Vec<char>, k: SpanKind) -> (r: Vec<StyledSpan>)
    ensures
        span_views(r@) == seq![piece(cs@, k)],
{
    let mut out: Vec<StyledSpan> = Vec::new();
    out.push(make_piece(cs.as_slice(), k));
    assert(span_views(out@) =~= seq![piece(cs@, k)]);
    out
}

/// Splits a markdown line into styled pieces.
pub fn highlight_markdown_line(line: &str) -> (r: Vec<StyledSpan>)
    ensures
        span_views(r@) == markdown_spans(line@),
{
    let cs = chars_of(line);
    if starts_with(&cs, &['#', '#', '#', ' ']) {
        return two_pieces(&['#', '#', '#', ' '], &cs, 4, SpanKind::Dim, SpanKind::Heading3);
    }
    if starts_with(&cs, &['#', '#', ' ']) {
        return two_pieces(&['#', '#', ' '], &cs, 3, SpanKind::Dim, SpanKind::Heading2);
    }
    if starts_with(&cs, &['#', ' ']) {
        return two_pieces(&['#', ' '], &cs, 2, SpanKind::Dim, SpanKind::Heading1);
    }
    if is_exactly(&cs, &['-', '-', '-']) || is_exactly(&cs, &['*', '*', '*']) || is_exactly(
        &cs,
        &['=', '=', '='],
    ) {
        return whole_line(&cs, SpanKind::Dim);
    }
    if starts_with(&cs, &['>', ' ']) {
        return two_pieces(&['>', ' '], &cs, 2, SpanKind::Dim, SpanKind::Quote);
    }
    if starts_with(&cs, &['`', '`', '`']) {
        return whole_line(&cs, SpanKind::Fence);
    }
    if starts_with(&cs, &['-', ' ']) || starts_with(&cs, &['*', ' ']) {
        return marker_then_inline(&cs, 2, SpanKind::Bullet);
    }
    if starts_with(&cs, &[' ', ' ', '-', ' ']) || starts_with(&cs, &[' ', ' ', '*', ' ']) {
        return marker_then_inline(&cs, 4, SpanKind::Bullet);
    }
    let mut lead: usize = 0;
    while lead < cs.len() && white_space(cs[lead])
        invariant
            lead <= cs@.len(),
            leading_space(cs@, 0) == leading_space(cs@, lead as int),
        decreases cs@.len() - lead,
    {
        lead += 1;
    }
    let body = suffix(&cs, lead);
    let dot: Vec<char> = vec!['.', ' '];
    match crate::text::find_from(&body, &dot, 0) {
        Some(p) => {
            proof {
                crate::text::lemma_first_occurrence(body@, dot@, 0);
            }
            let mut digits = true;
            let mut k: usize = 0;
            while k < p
                invariant
                    p + 2 <= body@.len(),
                    k <= p,
                    digits == all_digits(body@.take(k as int)),
                decreases p - k,
            {
                let ghost t0 = body@.take(k as int);
                let ghost t1 = body@.take(k + 1);
                assert(t1 =~= t0.push(body@[k as int]));
                assert(all_digits(t1) == (all_digits(t0) && '0' <= body@[k as int] <= '9')) by {
                    if all_digits(t1) {
                        assert(t1[k as int] == body@[k as int]);
                        assert forall|j: int| 0 <= j < t0.len() implies '0' <= #[trigger] t0[j] <= '9' by {
                            assert(t0[j] == t1[j]);
                        }
                    }
                    if all_digits(t0) && '0' <= body@[k as int] <= '9' {
                        assert forall|j: int| 0 <= j < t1.len() implies '0' <= #[trigger] t1[j] <= '9' by {
                            if j < k {
                                assert(t0[j] == t1[j]);
                            }
                        }
                    }
                }
                digits = digits && '0' <= body[k] && body[k] <= '9';
                k += 1;
            }
            if digits {
                let mut head: Vec<char> = Vec::new();
                push_range(&mut head, &cs, 0, lead);
                push_range(&mut head, &body, 0, p + 2);
                assert(head@ =~= cs@.take(lead as int) + body@.take(p + 2));
                let rest = suffix(&body, p + 2);
                let mut out: Vec<StyledSpan> = Vec::new();
                out.push(make_piece(head.as_slice(), SpanKind::Bullet));
                let ghost a = span_views(out@);
                let mut tail = inline_pieces(&rest);
                let ghost b = span_views(tail@);
                out.append(&mut tail);
                assert(span_views(out@) =~= a + b);
                return out;
            }
        },
        None => {},
    }
    if starts_with(&cs, &['-', ' ', '[', ' ', ']', ' ']) {
        return two_pieces(&['-', ' ', '[', ' ', ']', ' '], &cs, 6, SpanKind::TaskOpen, SpanKind::Plain);
    }
    if starts_with(&cs, &['-', ' ', '[', 'x', ']', ' ']) || starts_with(
        &cs,
        &['-', ' ', '[', 'X', ']', ' '],
    ) {
        return two_pieces(&['-', ' ', '[', 'x', ']', ' '], &cs, 6, SpanKind::TaskDone, SpanKind::DoneText);
    }
    inline_pieces(&cs)
}

/// A piece as its UTF-8 bytes and style.
pub type PieceBytes = (Seq<u8>, SpanStyle);

/// The pieces as their UTF-8 bytes and styles.
pub open spec fn piece_bytes(v: Seq<StyledSpan>) -> Seq<PieceBytes> {
    v.map_values(|s: StyledSpan| (encode_utf8(s.text@), s.style))
}

/// The pieces, given as views, as their UTF-8 bytes and styles.
pub open spec fn view_bytes(v: Seq<SpanView>) -> Seq<PieceBytes> {
    v.map_values(|s: SpanView| (encode_utf8(s.0), s.1))
}

/// The style of a piece covered by a search hit, the current one or another.
pub open spec fn marked(st: SpanStyle, current: bool) -> SpanStyle {
    SpanStyle {
        kind: st.kind,
        hit: if current {
            HitMark::CurrentHit
        } else {
            HitMark::Hit
        },
    }
}

/// The byte offset, in the whole line, at which piece `i` starts.
pub open spec fn span_start(spans: Seq<SpanView>, i: int) -> int
    decreases i,
{
    if i <= 0 {
        0
    } else {
        span_start(spans, i - 1) + encode_utf8(spans[i - 1].0).len()
    }
}

/// The piece with bytes `b` starting at line offset `s`, cut by the hits
/// `ms` from hit `k` on, where the text before `cursor` is already covered:
/// each hit overlapping the piece gives the uncovered text before it in the
/// piece's style, then the overlap in style `hl`; the uncovered rest follows.
pub open spec fn cut_span(
    b: Seq<u8>,
    s: int,
    st: SpanStyle,
    hl: SpanStyle,
    ms: Seq<(usize, usize)>,
    k: int,
    cursor: int,
) -> Seq<PieceBytes>
    decreases ms.len() - k,
{
    let e = s + b.len();
    if k < 0 || k >= ms.len() {
        if cursor < e {
            seq![(b.subrange(cursor - s, b.len() as int), st)]
        } else {
            Seq::empty()
        }
    } else {
        let os = if ms[k].0 > s {
            ms[k].0 as int
        } else {
            s
        };
        let oe = if ms[k].1 < e {
            ms[k].1 as int
        } else {
            e
        };
        if os >= oe {
            cut_span(b, s, st, hl, ms, k + 1, cursor)
        } else {
            let before = if cursor < os {
                seq![(b.subrange(cursor - s, os - s), st)]
            } else {
                Seq::empty()
            };
            before + seq![(b.subrange(os - s, oe - s), hl)] + cut_span(b, s, st, hl, ms, k + 1, oe)
        }
    }
}

/// The pieces from piece `i` on, cut by the hits.
pub open spec fn cut_spans(spans: Seq<SpanView>, ms: Seq<(usize, usize)>, current: bool, i: int) -> Seq<PieceBytes>
    decreases spans.len() - i,
{
    if i < 0 || i >= spans.len() {
        Seq::empty()
    } else {
        let s = span_start(spans, i);
        cut_span(encode_utf8(spans[i].0), s, spans[i].1, marked(spans[i].1, current), ms, 0, s)
            + cut_spans(spans, ms, current, i + 1)
    }
}

/// The pieces with the hits `ms` (byte ranges of the whole line) marked;
/// with no hits, the pieces as they are.
pub open spec fn highlighted(spans: Seq<SpanView>, ms: Seq<(usize, usize)>, current: bool) -> Seq<PieceBytes> {
    if ms.len() == 0 {
        view_bytes(spans)
    } else {
        cut_spans(spans, ms, current, 0)
    }
}

/// Every hit that is not empty and begins or ends inside a piece does so at
/// a character boundary of it.
pub open spec fn cuts_on_boundaries(spans: Seq<SpanView>, ms: Seq<(usize, usize)>) -> bool {
    forall|i: int, k: int|
        #![trigger span_start(spans, i), ms[k]]
        0 <= i < spans.len() && 0 <= k < ms.len() && ms[k].0 < ms[k].1 ==> {
            let s = span_start(spans, i);
            let b = encode_utf8(spans[i].0);
            &&& s <= ms[k].0 < s + b.len() ==> is_char_boundary(b, ms[k].0 - s)
            &&& s < ms[k].1 < s + b.len() ==> is_char_boundary(b, ms[k].1 - s)
        }
}

proof fn lemma_span_start_mono(spans: Seq<SpanView>, i: int, j: int)
    requires
        0 <= i <= j,
    ensures
        span_start(spans, i) <= span_start(spans, j),
    decreases j,
{
    if i < j {
        lemma_span_start_mono(spans, i, j - 1);
    }
}

/// Marks the search hits `ms`, given as byte ranges of the whole line, on
/// top of the pieces: the current hit or another one.
pub fn apply_search_highlight(spans: &[StyledSpan], ms: &[(usize, usize)], is_current: bool) -> (r: Vec<StyledSpan>)
    requires
        span_start(span_views(spans@), spans@.len() as int) <= usize::MAX,
        cuts_on_boundaries(span_views(spans@), ms@),
    ensures
        piece_bytes(r@) == highlighted(span_views(spans@), ms@, is_current),
{
    broadcast use vstd::utf8::group_utf8_lib;

    let ghost sv = span_views(spans@);
    let mut result: Vec<StyledSpan> = Vec::new();
    if ms.len() == 0 {
        let mut i: usize = 0;
        while i < spans.len()
            invariant
                i <= spans@.len(),
                sv == span_views(spans@),
                ms@.len() == 0,
                piece_bytes(result@) == view_bytes(sv.take(i as int)),
            decreases spans@.len() - i,
        {
            let ghost before = piece_bytes(result@);
            result.push(StyledSpan { text: spans[i].text.clone(), style: spans[i].style });
            assert(piece_bytes(result@) =~= before.push((encode_utf8(sv[i as int].0), sv[i as int].1)));
            assert(view_bytes(sv.take(i + 1)) =~= view_bytes(sv.take(i as int)).push(
                (encode_utf8(sv[i as int].0), sv[i as int].1),
            ));
            i += 1;
        }
        assert(sv.take(spans@.len() as int) =~= sv);
        return result;
    }
    let mut pos: usize = 0;
    let mut i: usize = 0;
    while i < spans.len()
        invariant
            i <= spans@.len(),
            sv == span_views(spans@),
            ms@.len() > 0,
            span_start(sv, spans@.len() as int) <= usize::MAX,
            cuts_on_boundaries(sv, ms@),
            pos == span_start(sv, i as int),
            piece_bytes(result@) + cut_spans(sv, ms@, is_current, i as int) == cut_spans(
                sv,
                ms@,
                is_current,
                0,
            ),
        decreases spans@.len() - i,
    {
        let span = &spans[i];
        let ghost b = encode_utf8(span.text@);
        let ghost st = span.style;
        let ghost hl = marked(st, is_current);
        proof {
            assert(sv[i as int].0 == span.text@);
            lemma_span_start_mono(sv, i + 1, spans@.len() as int);
        }
        let blen = span.text.as_str().len();
        let start = pos;
        let end = pos + blen;
        let ghost rest = cut_spans(sv, ms@, is_current, i + 1);
        let mut cursor = start;
        let mut k: usize = 0;
        proof {
            vstd::utf8::encode_utf8_valid_utf8(span.text@);
            vstd::utf8::is_char_boundary_start_end_of_seq(b);
        }
        while k < ms.len()
            invariant
                k <= ms@.len(),
                sv == span_views(spans@),
                i < spans@.len(),
                span == &spans@[i as int],
                b == encode_utf8(span.text@),
                st == span.style,
                hl == marked(st, is_current),
                start == span_start(sv, i as int),
                end == start + b.len(),
                start <= cursor <= end,
                is_char_boundary(b, b.len() as int),
                is_char_boundary(b, 0),
                is_char_boundary(b, cursor - start),
                cuts_on_boundaries(sv, ms@),
                rest == cut_spans(sv, ms@, is_current, i + 1),
                piece_bytes(result@) + cut_span(b, start as int, st, hl, ms@, k as int, cursor as int)
                    + rest == cut_spans(sv, ms@, is_current, 0),
            decreases ms@.len() - k,
        {
            let (m0, m1) = ms[k];
            let os = if m0 > start {
                m0
            } else {
                start
            };
            let oe = if m1 < end {
                m1
            } else {
                end
            };
            if os < oe {
                proof {
                    assert(sv[i as int].0 == span.text@);
                    assert(ms@[k as int] == (m0, m1));
                    if os > start {
                        assert(is_char_boundary(b, m0 - start));
                    }
                    if oe < end {
                        assert(is_char_boundary(b, m1 - start));
                    } else {
                        assert(is_char_boundary(b, b.len() as int));
                    }
                }
                let ghost before = piece_bytes(result@);
                if cursor < os {
                    let t = byte_slice(span.text.as_str(), cursor - start, os - start);
                    result.push(StyledSpan { text: t, style: span.style });
                }
                let ghost mid = piece_bytes(result@);
                assert(mid =~= before + if cursor < os {
                    seq![(b.subrange(cursor - start, os - start), st)]
                } else {
                    Seq::empty()
                });
                let t = byte_slice(span.text.as_str(), os - start, oe - start);
                result.push(StyledSpan { text: t, style: mark_style(span.style, is_current) });
                assert(piece_bytes(result@) =~= mid.push((b.subrange(os - start, oe - start), hl)));
                cursor = oe;
            }
            k += 1;
        }
        let ghost before = piece_bytes(result@);
        if cursor < end {
            assert(blen == b.len());
            let t = byte_slice(span.text.as_str(), cursor - start, blen);
            result.push(StyledSpan { text: t, style: span.style });
            assert(piece_bytes(result@) =~= before.push((b.subrange(cursor - start, b.len() as int), st)));
        }
        assert(piece_bytes(result@) + rest =~= before + cut_span(b, start as int, st, hl, ms@, k as int, cursor as int) + rest);
        pos = end;
        i += 1;
    }
    assert(piece_bytes(result@) + Seq::<PieceBytes>::empty() =~= piece_bytes(result@));
    result
}

/// The style of a piece covered by a search hit, the current one or another.
pub fn mark_style(st: SpanStyle, current: bool) -> (r: SpanStyle)
    ensures
        r == marked(st, current),
{
    SpanStyle {
        kind: st.kind,
        hit: if current {
            HitMark::CurrentHit
        } else {
            HitMark::Hit
        },
    }
}

/// One of the characters that can begin inline markup.
pub open spec fn is_markup_char(c: char) -> bool {
    c == '`' || c == '*' || c == '_' || c == '['
}

/// From `i` on, every piece has some text.
proof fn lemma_inline_from_nonempty(cs: Seq<char>, i: int, cur: Seq<char>)
    ensures
        forall|k: int|
            0 <= k < inline_from(cs, i, cur).len() ==> (#[trigger] inline_from(cs, i, cur)[k]).0.len() > 0,
    decreases cs.len() + 4 - i,
{
    if 0 <= i < cs.len() {
        lemma_token_advances(cs, i);
        match inline_token(cs, i) {
            Some((ni, t, k)) => {
                lemma_inline_from_nonempty(cs, ni, Seq::empty());
                let all = inline_from(cs, i, cur);
                let a = flush(cur) + seq![(t, plain_style(k))];
                let b = inline_from(cs, ni, Seq::empty());
                assert(all == a + b);
                assert(t.len() >= 2);
                assert forall|j: int| 0 <= j < all.len() implies (#[trigger] all[j]).0.len() > 0 by {
                    if j >= a.len() {
                        assert(all[j] == b[j - a.len()]);
                    }
                }
            },
            None => {
                lemma_inline_from_nonempty(cs, i + 1, cur.push(cs[i]));
                assert(inline_from(cs, i, cur) == inline_from(cs, i + 1, cur.push(cs[i])));
            },
        }
    } else {
        assert(inline_from(cs, i, cur) == flush(cur));
    }
}

/// No inline piece is empty.
pub proof fn lemma_inline_pieces_nonempty(cs: Seq<char>)
    ensures
        forall|k: int| 0 <= k < inline_spans(cs).len() ==> (#[trigger] inline_spans(cs)[k]).0.len() > 0,
{
    lemma_inline_from_nonempty(cs, 0, Seq::empty());
}

proof fn lemma_plain_from(cs: Seq<char>, i: int, cur: Seq<char>)
    requires
        0 <= i <= cs.len(),
        forall|k: int| 0 <= k < cs.len() ==> !is_markup_char(#[trigger] cs[k]),
    ensures
        inline_from(cs, i, cur) == flush(cur + cs.skip(i)),
    decreases cs.len() - i,
{
    if i < cs.len() {
        assert(!is_markup_char(cs[i]));
        assert(inline_token(cs, i) is None);
        lemma_plain_from(cs, i + 1, cur.push(cs[i]));
        assert(cur.push(cs[i]) + cs.skip(i + 1) =~= cur + cs.skip(i));
    } else {
        assert(cur + cs.skip(i) =~= cur);
    }
}

/// A line with none of the characters that begin inline markup is one plain
/// piece holding the whole line, or no piece when it is empty.
pub proof fn lemma_plain_line(cs: Seq<char>)
    requires
        forall|k: int| 0 <= k < cs.len() ==> !is_markup_char(#[trigger] cs[k]),
    ensures
        inline_spans(cs) == flush(cs),
{
    lemma_plain_from(cs, 0, Seq::empty());
    assert(Seq::<char>::empty() + cs.skip(0) =~= cs);
}

/// A list item, `- ` or `* ` at the start of the line or after two spaces,
/// is shown as its marker in the bullet style, followed by the inline pieces
/// of the rest of the line.
pub proof fn lemma_list_item(cs: Seq<char>)
    requires
        has_prefix(cs, seq!['-', ' ']) || has_prefix(cs, seq!['*', ' ']) || has_prefix(
            cs,
            seq![' ', ' ', '-', ' '],
        ) || has_prefix(cs, seq![' ', ' ', '*', ' ']),
    ensures
        ({
            let n: int = if cs[0] == ' ' {
                4
            } else {
                2
            };
            let out = markdown_spans(cs);
            &&& out.len() >= 1
            &&& out[0] == (cs.take(n), SpanStyle { kind: SpanKind::Bullet, hit: HitMark::NoHit })
            &&& out.drop_first() == inline_spans(cs.skip(n))
        }),
{
    let n: int = if cs[0] == ' ' {
        4
    } else {
        2
    };
    assert(cs.take(n).len() == n);
    if cs[0] == ' ' {
        assert(cs.take(4)[0] == ' ');
        assert(!has_prefix(cs, seq!['-', ' ']) && !has_prefix(cs, seq!['*', ' ']));
    } else {
        assert(!has_prefix(cs, seq![' ', ' ', '-', ' ']) && !has_prefix(cs, seq![' ', ' ', '*', ' ']));
    }
    assert(!has_prefix(cs, seq!['#', '#', '#', ' ']) && !has_prefix(cs, seq!['#', '#', ' ']) && !has_prefix(
        cs,
        seq!['#', ' '],
    ));
    assert(!has_prefix(cs, seq!['>', ' ']) && !has_prefix(cs, seq!['`', '`', '`']));
    assert(cs != seq!['-', '-', '-'] && cs != seq!['*', '*', '*'] && cs != seq!['=', '=', '=']);
    let out = markdown_spans(cs);
    assert(out =~= seq![piece(cs.take(n), SpanKind::Bullet)] + inline_spans(cs.skip(n)));
    assert(out.drop_first() =~= inline_spans(cs.skip(n)));
}

/// Hit `m` overlaps the piece from line offset `s` to `e`.
pub open spec fn hit_overlaps(m: (usize, usize), s: int, e: int) -> bool {
    (if m.0 > s {
        m.0 as int
    } else {
        s
    }) < (if m.1 < e {
        m.1 as int
    } else {
        e
    })
}

/// Hits that overlap no part of a piece leave its cut as it is.
proof fn lemma_cut_skips(
    b: Seq<u8>,
    s: int,
    st: SpanStyle,
    hl: SpanStyle,
    ms: Seq<(usize, usize)>,
    k0: int,
    k: int,
    cursor: int,
)
    requires
        0 <= k0 <= k <= ms.len(),
        forall|j: int| k0 <= j < k ==> !hit_overlaps(#[trigger] ms[j], s, s + b.len()),
    ensures
        cut_span(b, s, st, hl, ms, k0, cursor) == cut_span(b, s, st, hl, ms, k, cursor),
    decreases k - k0,
{
    if k0 < k {
        assert(!hit_overlaps(ms[k0], s, s + b.len()));
        lemma_cut_skips(b, s, st, hl, ms, k0 + 1, k, cursor);
    }
}

/// The cut pieces of the whole line begin with those of the first `i` pieces.
proof fn lemma_cut_prefix(spans: Seq<SpanView>, ms: Seq<(usize, usize)>, current: bool, i: int) -> (x: Seq<PieceBytes>)
    requires
        0 <= i <= spans.len(),
    ensures
        cut_spans(spans, ms, current, 0) == x + cut_spans(spans, ms, current, i),
    decreases i,
{
    if i == 0 {
        let x = Seq::<PieceBytes>::empty();
        assert(x + cut_spans(spans, ms, current, 0) =~= cut_spans(spans, ms, current, 0));
        x
    } else {
        let y = lemma_cut_prefix(spans, ms, current, i - 1);
        let s0 = span_start(spans, i - 1);
        let c = cut_span(encode_utf8(spans[i - 1].0), s0, spans[i - 1].1, marked(spans[i - 1].1, current), ms, 0, s0);
        assert(cut_spans(spans, ms, current, i - 1) == c + cut_spans(spans, ms, current, i));
        assert(y + (c + cut_spans(spans, ms, current, i)) =~= (y + c) + cut_spans(spans, ms, current, i));
        y + c
    }
}

/// A search hit that lies inside one piece of the line, and is the first hit
/// that reaches that piece, shows as a piece of its own: exactly the hit's
/// bytes, in the piece's kind, marked as the current hit or as another hit;
/// never left unmarked.
pub proof fn lemma_hit_is_marked(spans: Seq<SpanView>, ms: Seq<(usize, usize)>, current: bool, i: int, k: int)
    requires
        0 <= i < spans.len(),
        0 <= k < ms.len(),
        span_start(spans, i) <= ms[k].0 < ms[k].1 <= span_start(spans, i) + encode_utf8(spans[i].0).len(),
        forall|j: int|
            0 <= j < k ==> !hit_overlaps(
                #[trigger] ms[j],
                span_start(spans, i),
                span_start(spans, i) + encode_utf8(spans[i].0).len(),
            ),
    ensures
        exists|j: int|
            0 <= j < highlighted(spans, ms, current).len() && #[trigger] highlighted(spans, ms, current)[j] == (
                encode_utf8(spans[i].0).subrange(
                    ms[k].0 - span_start(spans, i),
                    ms[k].1 - span_start(spans, i),
                ),
                SpanStyle {
                    kind: spans[i].1.kind,
                    hit: if current {
                        HitMark::CurrentHit
                    } else {
                        HitMark::Hit
                    },
                },
            ),
{
    let s = span_start(spans, i);
    let b = encode_utf8(spans[i].0);
    let st = spans[i].1;
    let hl = marked(st, current);
    let x = lemma_cut_prefix(spans, ms, current, i);
    lemma_cut_skips(b, s, st, hl, ms, 0, k, s);
    let rest = cut_spans(spans, ms, current, i + 1);
    assert(cut_spans(spans, ms, current, i) == cut_span(b, s, st, hl, ms, 0, s) + rest);
    let os = ms[k].0 as int;
    let oe = ms[k].1 as int;
    let before = if s < os {
        seq![(b.subrange(0, os - s), st)]
    } else {
        Seq::empty()
    };
    let tail = cut_span(b, s, st, hl, ms, k + 1, oe);
    assert(cut_span(b, s, st, hl, ms, k, s) == before + seq![(b.subrange(os - s, oe - s), hl)] + tail);
    let out = highlighted(spans, ms, current);
    assert(out == x + (before + seq![(b.subrange(os - s, oe - s), hl)] + tail + rest));
    let j: int = (x.len() + before.len()) as int;
    assert(out[j] == (b.subrange(os - s, oe - s), hl));
}

/// A terminal colour.
#[derive(Debug, Clone, Copy, PartialEq, Eq, Structural)]
pub enum Colour {
    /// The terminal's own colour: nothing is set.
    Default,
    White,
    DarkGray,
    Yellow,
    Green,
    Blue,
    Cyan,
    LightCyan,
    /// A colour given by its red, green and blue levels.
    Rgb(u8, u8, u8),
}

/// How a piece is drawn: its colours and text attributes.
#[derive(Debug, Clone, Copy, PartialEq, Eq, Structural)]
pub struct Look {
    pub fg: Colour,
    pub bg: Colour,
    pub bold: bool,
    pub italic: bool,
    pub underlined: bool,
    pub crossed_out: bool,
}

/// A look with the given foreground and no other colour or attribute.
pub open spec fn fg_look(c: Colour) -> Look {
    Look { fg: c, bg: Colour::Default, bold: false, italic: false, underlined: false, crossed_out: false }
}

/// How a piece of each kind is drawn outside search hits.
pub open spec fn kind_look(k: SpanKind) -> Look {
    match k {
        SpanKind::Plain => fg_look(Colour::Default),
        SpanKind::Dim => fg_look(Colour::DarkGray),
        SpanKind::Heading1 => Look { bold: true, ..fg_look(Colour::Blue) },
        SpanKind::Heading2 => Look { bold: true, ..fg_look(Colour::Cyan) },
        SpanKind::Heading3 => Look { bold: true, ..fg_look(Colour::LightCyan) },
        SpanKind::Quote => Look { italic: true, ..fg_look(Colour::Rgb(180, 180, 180)) },
        SpanKind::Fence => fg_look(Colour::Yellow),
        SpanKind::Bullet => fg_look(Colour::Green),
        SpanKind::TaskOpen => fg_look(Colour::Yellow),
        SpanKind::TaskDone => fg_look(Colour::Green),
        SpanKind::DoneText => Look { crossed_out: true, ..fg_look(Colour::DarkGray) },
        SpanKind::Code => Look { bg: Colour::Rgb(40, 40, 40), ..fg_look(Colour::Yellow) },
        SpanKind::BoldItalic => Look { bold: true, italic: true, ..fg_look(Colour::Default) },
        SpanKind::Bold => Look { bold: true, ..fg_look(Colour::Default) },
        SpanKind::Italic => Look { italic: true, ..fg_look(Colour::Default) },
        SpanKind::Link => Look { underlined: true, ..fg_look(Colour::Blue) },
        SpanKind::WikiLink => Look { underlined: true, ..fg_look(Colour::Cyan) },
    }
}

/// How a piece with the given style is drawn: the look of its kind, and over
/// a search hit white and bold on orange, brighter for the current hit.
pub open spec fn style_look(st: SpanStyle) -> Look {
    let base = kind_look(st.kind);
    match st.hit {
        HitMark::NoHit => base,
        HitMark::Hit => Look { fg: Colour::White, bg: Colour::Rgb(100, 80, 0), bold: true, ..base },
        HitMark::CurrentHit => Look { fg: Colour::White, bg: Colour::Rgb(200, 120, 0), bold: true, ..base },
    }
}

/// How a piece with the given style is drawn.
pub fn look_of(st: SpanStyle) -> (r: Look)
    ensures
        r == style_look(st),
{
    let plain = Look {
        fg: Colour::Default,
        bg: Colour::Default,
        bold: false,
        italic: false,
        underlined: false,
        crossed_out: false,
    };
    let base = match st.kind {
        SpanKind::Plain => plain,
        SpanKind::Dim => Look { fg: Colour::DarkGray, ..plain },
        SpanKind::Heading1 => Look { fg: Colour::Blue, bold: true, ..plain },
        SpanKind::Heading2 => Look { fg: Colour::Cyan, bold: true, ..plain },
        SpanKind::Heading3 => Look { fg: Colour::LightCyan, bold: true, ..plain },
        SpanKind::Quote => Look { fg: Colour::Rgb(180, 180, 180), italic: true, ..plain },
        SpanKind::Fence => Look { fg: Colour::Yellow, ..plain },
        SpanKind::Bullet => Look { fg: Colour::Green, ..plain },
        SpanKind::TaskOpen => Look { fg: Colour::Yellow, ..plain },
        SpanKind::TaskDone => Look { fg: Colour::Green, ..plain },
        SpanKind::DoneText => Look { fg: Colour::DarkGray, crossed_out: true, ..plain },
        SpanKind::Code => Look { fg: Colour::Yellow, bg: Colour::Rgb(40, 40, 40), ..plain },
        SpanKind::BoldItalic => Look { bold: true, italic: true, ..plain },
        SpanKind::Bold => Look { bold: true, ..plain },
        SpanKind::Italic => Look { italic: true, ..plain },
        SpanKind::Link => Look { fg: Colour::Blue, underlined: true, ..plain },
        SpanKind::WikiLink => Look { fg: Colour::Cyan, underlined: true, ..plain },
    };
    match st.hit {
        HitMark::NoHit => base,
        HitMark::Hit => Look { fg: Colour::White, bg: Colour::Rgb(100, 80, 0), bold: true, ..base },
        HitMark::CurrentHit => Look { fg: Colour::White, bg: Colour::Rgb(200, 120, 0), bold: true, ..base },
    }
}

} // verus!
