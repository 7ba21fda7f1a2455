use vstd::prelude::*;

verus! {

broadcast use vstd::string::group_string_axioms;

/// `String::push` appends one character.
pub assume_specification[ String::push ](s: &mut String, ch: char)
    ensures
        final(s)@ == old(s)@.push(ch),
;

/// `String::pop` removes and gives back the last character, if there is one.
pub assume_specification[ String::pop ](s: &mut String) -> (r: Option<char>)
    ensures
        match r {
            Some(c) => old(s)@ == final(s)@.push(c),
            None => old(s)@.len() == 0 && final(s)@ == old(s)@,
        },
;

/// The characters of `s`, in order.
pub fn chars_of(s: &str) -> (v: Vec<char>)
    ensures
        v@ == s@,
{
    let mut v: Vec<char> = Vec::new();
    for c in it: s.chars()
        invariant
            v@ == it.seq().take(it.index() as int),
    {
        v.push(c);
    }
    v
}

/// The string made of the characters of `cs`, in order.
pub fn string_of(cs: &[char]) -> (s: String)
    ensures
        s@ == cs@,
{
    let mut s = String::new();
    let mut i: usize = 0;
    while i < cs.len()
        invariant
            i <= cs@.len(),
            s@ == cs@.take(i as int),
        decreases cs@.len() - i,
    {
        s.push(cs[i]);
        i += 1;
        assert(s@ == cs@.take(i as int));
    }
    assert(cs@.take(cs@.len() as int) == cs@);
    s
}

} // verus!

verus! {

/// The Unicode lowercase mapping of a string, as `str::to_lowercase` computes it.
pub uninterp spec fn lowercase_of(s: Seq<char>) -> Seq<char>;

/// Calls `str::to_lowercase`. The result is named, not described: it is the
/// Unicode lowercase mapping of `s`, which depends on `s` alone.
#[verifier::external_body]
pub(crate) fn to_lower(s: &str) -> (r: String)
    ensures
        r@ == lowercase_of(s@),
{
    s.to_lowercase()
}

/// `pat` occurs in `hay` starting at index `i`.
pub open spec fn occurs_at(hay: Seq<char>, pat: Seq<char>, i: int) -> bool {
    &&& 0 <= i
    &&& i + pat.len() <= hay.len()
    &&& hay.subrange(i, i + pat.len()) == pat
}

/// `pat` occurs somewhere in `hay`.
pub open spec fn contains_seq(hay: Seq<char>, pat: Seq<char>) -> bool {
    exists|i: int| occurs_at(hay, pat, i)
}

/// The leftmost occurrence of `pat` in `hay` that starts at `i` or later.
pub open spec fn first_occurrence(hay: Seq<char>, pat: Seq<char>, i: int) -> Option<int>
    decreases hay.len() + 1 - i,
{
    if i < 0 || i + pat.len() > hay.len() {
        None
    } else if occurs_at(hay, pat, i) {
        Some(i)
    } else {
        first_occurrence(hay, pat, i + 1)
    }
}

/// The occurrences of a non-empty `pat` in `hay` found by scanning from `i`
/// left to right and resuming after each one found, as half-open index ranges.
pub open spec fn scan_occurrences(hay: Seq<char>, pat: Seq<char>, i: int) -> Seq<(int, int)>
    decreases hay.len() - i,
{
    if pat.len() == 0 || i < 0 || i + pat.len() > hay.len() {
        Seq::empty()
    } else if occurs_at(hay, pat, i) {
        seq![(i, i + pat.len())] + scan_occurrences(hay, pat, i + pat.len())
    } else {
        scan_occurrences(hay, pat, i + 1)
    }
}

/// Whether `pat` occurs in `hay` at index `i`.
pub fn matches_at(hay: &Vec<char>, pat: &Vec<char>, i: usize) -> (r: bool)
    ensures
        r == occurs_at(hay@, pat@, i as int),
{
    if i > hay.len() || pat.len() > hay.len() - i {
        return false;
    }
    let mut k: usize = 0;
    while k < pat.len()
        invariant
            i + pat@.len() <= hay@.len(),
            hay@.len() <= usize::MAX,
            k <= pat@.len(),
            forall|j: int| 0 <= j < k ==> hay@[i + j] == pat@[j],
        decreases pat@.len() - k,
    {
        if hay[i + k] != pat[k] {
            assert(hay@.subrange(i as int, i + pat@.len())[k as int] != pat@[k as int]);
            return false;
        }
        k += 1;
    }
    assert(hay@.subrange(i as int, i + pat@.len()) =~= pat@);
    true
}

/// The index of the leftmost occurrence of `pat` in `hay` starting at `from` or later.
pub fn find_from(hay: &Vec<char>, pat: &Vec<char>, from: usize) -> (r: Option<usize>)
    ensures
        match r {
            Some(k) => first_occurrence(hay@, pat@, from as int) == Some(k as int),
            None => first_occurrence(hay@, pat@, from as int) is None,
        },
{
    if from > hay.len() || pat.len() > hay.len() - from {
        return None;
    }
    let mut k: usize = from;
    loop
        invariant
            from <= k,
            k + pat@.len() <= hay@.len(),
            hay@.len() <= usize::MAX,
            first_occurrence(hay@, pat@, from as int) == first_occurrence(hay@, pat@, k as int),
        decreases hay@.len() - k,
    {
        if matches_at(hay, pat, k) {
            return Some(k);
        }
        if k + pat.len() == hay.len() {
            assert(first_occurrence(hay@, pat@, k + 1) is None);
            return None;
        }
        k += 1;
    }
}

/// The characters of `p` occur in `s` in order, not necessarily next to each other.
pub open spec fn subsequence_of(p: Seq<char>, s: Seq<char>) -> bool
    decreases s.len(),
{
    if p.len() == 0 {
        true
    } else if s.len() == 0 {
        false
    } else if p[0] == s[0] {
        subsequence_of(p.drop_first(), s.drop_first())
    } else {
        subsequence_of(p, s.drop_first())
    }
}

/// Whether the characters of `p` occur in `s` in order.
pub fn is_subsequence(p: &Vec<char>, s: &Vec<char>) -> (r: bool)
    ensures
        r == subsequence_of(p@, s@),
{
    let mut i: usize = 0;
    let mut j: usize = 0;
    assert(p@.skip(0) =~= p@);
    assert(s@.skip(0) =~= s@);
    while i < s.len() && j < p.len()
        invariant
            i <= s@.len(),
            j <= p@.len(),
            subsequence_of(p@, s@) == subsequence_of(p@.skip(j as int), s@.skip(i as int)),
        decreases s@.len() - i,
    {
        assert(s@.skip(i as int).drop_first() =~= s@.skip(i + 1));
        assert(p@.skip(j as int).drop_first() =~= p@.skip(j + 1));
        if s[i] == p[j] {
            j += 1;
        }
        i += 1;
    }
    j == p.len()
}

/// What `first_occurrence` finds is an occurrence, and none lies between the
/// start and it; when it finds none, there is none at or after the start.
pub proof fn lemma_first_occurrence(hay: Seq<char>, pat: Seq<char>, i: int)
    requires
        i >= 0,
    ensures
        match first_occurrence(hay, pat, i) {
            Some(k) => i <= k && occurs_at(hay, pat, k) && forall|j: int|
                i <= j < k ==> !occurs_at(hay, pat, j),
            None => forall|j: int| i <= j ==> !occurs_at(hay, pat, j),
        },
    decreases hay.len() + 1 - i,
{
    if i + pat.len() > hay.len() {
    } else if occurs_at(hay, pat, i) {
    } else {
        lemma_first_occurrence(hay, pat, i + 1);
    }
}

} // verus!

verus! {

/// A line without the carriage return that ends it, if one does.
pub open spec fn strip_cr(x: Seq<char>) -> Seq<char> {
    if x.len() > 0 && x.last() == '\r' {
        x.drop_last()
    } else {
        x
    }
}

/// The lines of `s` from index `i` on, where `cur` holds the characters of the
/// line read so far: lines end at `'\n'`, a `'\r'` just before the `'\n'` is
/// dropped, and an empty last line is not a line.
pub open spec fn lines_from(s: Seq<char>, i: int, cur: Seq<char>) -> Seq<Seq<char>>
    decreases s.len() - i,
{
    if i < 0 || i >= s.len() {
        if cur.len() == 0 {
            Seq::empty()
        } else {
            seq![cur]
        }
    } else if s[i] == '\n' {
        seq![strip_cr(cur)] + lines_from(s, i + 1, Seq::empty())
    } else {
        lines_from(s, i + 1, cur.push(s[i]))
    }
}

/// The lines of `s`, as `str::lines` yields them.
pub open spec fn lines_of(s: Seq<char>) -> Seq<Seq<char>> {
    lines_from(s, 0, Seq::empty())
}

/// The views of a vector of character vectors.
pub open spec fn char_rows(v: Seq<Vec<char>>) -> Seq<Seq<char>> {
    v.map_values(|l: Vec<char>| l@)
}

/// Splits `s` into its lines, as `str::lines` does.
pub fn split_lines(s: &Vec<char>) -> (r: Vec<Vec<char>>)
    ensures
        char_rows(r@) == lines_of(s@),
{
    let mut out: Vec<Vec<char>> = Vec::new();
    let mut cur: Vec<char> = Vec::new();
    let mut i: usize = 0;
    while i < s.len()
        invariant
            i <= s@.len(),
            char_rows(out@) + lines_from(s@, i as int, cur@) == lines_of(s@),
        decreases s@.len() - i,
    {
        let ghost before = char_rows(out@);
        if s[i] == '\n' {
            let ghost line = strip_cr(cur@);
            if cur.len() > 0 && cur[cur.len() - 1] == '\r' {
                cur.pop();
            }
            assert(cur@ == line);
            out.push(cur);
            cur = Vec::new();
            assert(char_rows(out@) == before.push(line));
            assert(char_rows(out@) + lines_from(s@, i + 1, Seq::empty()) == before + (seq![line]
                + lines_from(s@, i + 1, Seq::empty())));
        } else {
            cur.push(s[i]);
        }
        i += 1;
    }
    if cur.len() > 0 {
        let ghost before = char_rows(out@);
        out.push(cur);
        assert(char_rows(out@) == before.push(cur@));
    } else {
        assert(lines_from(s@, i as int, cur@) == Seq::<Seq<char>>::empty());
        assert(char_rows(out@) + Seq::<Seq<char>>::empty() == char_rows(out@));
    }
    out
}

} // verus!

verus! {

/// The text of `s` between the byte offsets `a` and `b` of its UTF-8 encoding.
pub fn byte_slice(s: &str, a: usize, b: usize) -> (r: String)
    requires
        a <= b <= vstd::utf8::encode_utf8(s@).len(),
        vstd::utf8::is_char_boundary(vstd::utf8::encode_utf8(s@), a as int),
        vstd::utf8::is_char_boundary(vstd::utf8::encode_utf8(s@), b as int),
    ensures
        vstd::utf8::encode_utf8(r@) == vstd::utf8::encode_utf8(s@).subrange(a as int, b as int),
{
    broadcast use vstd::utf8::group_utf8_lib;

    let ghost bytes = vstd::utf8::encode_utf8(s@);
    let (left, _right) = s.split_at(b);
    let ghost lb = vstd::utf8::encode_utf8(left@);
    assert(lb == bytes.subrange(0, b as int));
    proof {
        if a < b {
            assert(lb[a as int] == bytes[a as int]);
            assert(vstd::utf8::is_char_boundary(lb, a as int));
        } else {
            assert(vstd::utf8::is_char_boundary(lb, lb.len() as int));
        }
    }
    let (_head, mid) = left.split_at(a);
    assert(vstd::utf8::encode_utf8(mid@) =~= bytes.subrange(a as int, b as int));
    String::from_str(mid)
}

/// The decimal digit for `d`, below ten.
pub open spec fn digit_char(d: int) -> char {
    if d == 0 {
        '0'
    } else if d == 1 {
        '1'
    } else if d == 2 {
        '2'
    } else if d == 3 {
        '3'
    } else if d == 4 {
        '4'
    } else if d == 5 {
        '5'
    } else if d == 6 {
        '6'
    } else if d == 7 {
        '7'
    } else if d == 8 {
        '8'
    } else {
        '9'
    }
}

/// `n` written in decimal, without leading zeros.
pub open spec fn decimal_of(n: nat) -> Seq<char>
    decreases n,
{
    if n < 10 {
        seq![digit_char(n as int)]
    } else {
        decimal_of(n / 10).push(digit_char((n % 10) as int))
    }
}

/// The decimal digit for `d`.
fn digit(d: usize) -> (c: char)
    requires
        d < 10,
    ensures
        c == digit_char(d as int),
{
    match d {
        0 => '0',
        1 => '1',
        2 => '2',
        3 => '3',
        4 => '4',
        5 => '5',
        6 => '6',
        7 => '7',
        8 => '8',
        _ => '9',
    }
}

/// `n` written in decimal.
pub fn decimal(n: usize) -> (s: String)
    ensures
        s@ == decimal_of(n as nat),
    decreases n,
{
    if n < 10 {
        let mut s = String::new();
        s.push(digit(n));
        assert(s@ =~= seq![digit_char(n as int)]);
        s
    } else {
        let mut s = decimal(n / 10);
        s.push(digit(n % 10));
        s
    }
}

} // verus!
