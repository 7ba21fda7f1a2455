use vstd::prelude::*;

use crate::paths::{is_text_file, is_text_path};
use crate::text::{
    char_rows, chars_of, contains_seq, find_from, first_occurrence, lemma_first_occurrence,
    lines_of, lowercase_of, matches_at, occurs_at, scan_occurrences, split_lines, string_of,
    to_lower, byte_slice,
};
use std::time::Instant;
use vstd::utf8::{decode_utf8, encode_utf8, is_char_boundary};

verus! {

/// One hit of the in-file search, as a half-open range of character indices.
#[derive(Debug, Clone, Copy)]
pub struct SearchMatch {
    pub start_char: usize,
    pub end_char: usize,
}

/// The state of the search within the open file.
pub struct SearchState {
    pub query: String,
    pub matches: Vec<SearchMatch>,
    pub current: usize,
}

/// The number of bytes that the UTF-8 encoding of `s` takes.
pub open spec fn byte_len(s: Seq<char>) -> int {
    encode_utf8(s).len() as int
}

/// The number of characters of `content` whose encoding lies in its first `b` bytes.
pub open spec fn chars_before_byte(content: Seq<char>, b: int) -> int {
    decode_utf8(encode_utf8(content).subrange(0, b)).len() as int
}

/// The hits `hits`, found in the lowercased text `lower`, as character ranges
/// of `content` itself: each hit's byte offsets in `lower` are read as byte
/// offsets in `content` and counted there in characters. Where lowercasing
/// changed the length of the text so that such an offset falls inside a
/// character of `content`, or past its end, the hits stop there.
pub open spec fn mapped_hits(content: Seq<char>, lower: Seq<char>, hits: Seq<(int, int)>) -> Seq<(int, int)>
    decreases hits.len(),
{
    if hits.len() == 0 {
        Seq::empty()
    } else {
        let sb = byte_len(lower.take(hits[0].0));
        let eb = byte_len(lower.take(hits[0].1));
        if is_char_boundary(encode_utf8(content), sb) && is_char_boundary(encode_utf8(content), eb) {
            seq![(chars_before_byte(content, sb), chars_before_byte(content, eb))] + mapped_hits(
                content,
                lower,
                hits.drop_first(),
            )
        } else {
            Seq::empty()
        }
    }
}

/// The hits of the case-insensitive search for `query` in `content`: the
/// occurrences of the lowercased query in the lowercased text, scanned left to
/// right without overlap, as character ranges of `content`. An empty query
/// has no hits.
pub open spec fn expected_matches(query: Seq<char>, content: Seq<char>) -> Seq<(int, int)> {
    if query.len() == 0 {
        Seq::empty()
    } else {
        mapped_hits(content, lowercase_of(content), scan_occurrences(lowercase_of(content), lowercase_of(query), 0))
    }
}

/// The index after `c` in a ring of `len` positions.
pub open spec fn step_forward(c: int, len: int) -> int {
    (c + 1) % len
}

/// The row below `s` in a list of `len` rows, stopping at the last.
pub open spec fn step_down(s: int, len: int) -> int {
    if s + 1 < len {
        s + 1
    } else {
        s
    }
}

/// The row above `s`, stopping at the first.
pub open spec fn step_up(s: int) -> int {
    if s > 0 {
        s - 1
    } else {
        0
    }
}

/// The index before `c` in a ring of `len` positions.
pub open spec fn step_back(c: int, len: int) -> int {
    if c == 0 {
        len - 1
    } else {
        c - 1
    }
}

impl SearchState {
    /// The hits as ranges.
    pub open spec fn ranges(&self) -> Seq<(int, int)> {
        self.matches@.map_values(|m: SearchMatch| (m.start_char as int, m.end_char as int))
    }

    /// The current hit is one of the hits, or there are none and it is 0.
    pub open spec fn wf(&self) -> bool {
        if self.matches@.len() == 0 {
            self.current == 0
        } else {
            self.current < self.matches@.len()
        }
    }

    /// The hits that `next_match` and `prev_match` step through: the present
    /// ones, or, where there are none, those of a fresh search in `content`.
    pub open spec fn hits_for(&self, content: Seq<char>) -> Seq<(int, int)> {
        if self.matches@.len() == 0 {
            expected_matches(self.query@, content)
        } else {
            self.ranges()
        }
    }

    /// The position that stepping starts from: 0 after a fresh search.
    pub open spec fn start_for(&self) -> int {
        if self.matches@.len() == 0 {
            0
        } else {
            self.current as int
        }
    }

    /// An empty search.
    pub fn new() -> (s: Self)
        ensures
            s.query@ == Seq::<char>::empty(),
            s.matches@.len() == 0,
            s.current == 0,
            s.wf(),
    {
        SearchState { query: String::new(), matches: Vec::new(), current: 0 }
    }

    /// Recomputes the hits of the query in `content` and makes the first one current.
    pub fn recompute_matches(&mut self, content: &str)
        ensures
            final(self).query == old(self).query,
            final(self).current == 0,
            final(self).ranges() == expected_matches(old(self).query@, content@),
            final(self).wf(),
    {
        self.matches.clear();
        self.current = 0;
        assert(self.ranges() =~= Seq::<(int, int)>::empty());
        if self.query.as_str().is_empty() {
            return;
        }
        let q = to_lower(self.query.as_str());
        let lower = to_lower(content);
        let qc = chars_of(q.as_str());
        let lc = chars_of(lower.as_str());
        let ghost total = mapped_hits(content@, lc@, scan_occurrences(lc@, qc@, 0));
        if qc.len() == 0 {
            return;
        }
        let ghost cb = encode_utf8(content@);
        proof {
            vstd::utf8::encode_utf8_valid_utf8(content@);
        }
        let m = qc.len();
        let mut i: usize = 0;
        while i <= lc.len() && m <= lc.len() - i
            invariant
                m == qc@.len(),
                m > 0,
                i <= lc@.len(),
                lc@ == lower@,
                lc@ == lowercase_of(content@),
                qc@ == lowercase_of(old(self).query@),
                old(self).query@.len() > 0,
                total == expected_matches(old(self).query@, content@),
                cb == encode_utf8(content@),
                vstd::utf8::valid_utf8(cb),
                self.current == 0,
                self.query == old(self).query,
                self.ranges() + mapped_hits(content@, lc@, scan_occurrences(lc@, qc@, i as int)) == total,
            decreases lc@.len() - i,
        {
            let ghost before = self.ranges();
            if matches_at(&lc, &qc, i) {
                let ghost hits = scan_occurrences(lc@, qc@, i as int);
                assert(hits == seq![(i as int, i + m)] + scan_occurrences(lc@, qc@, i + m));
                assert(hits.drop_first() =~= scan_occurrences(lc@, qc@, i + m));
                let sb = lower.as_str().substring_char(0, i).as_bytes().len();
                let eb = lower.as_str().substring_char(0, i + m).as_bytes().len();
                assert(lc@.subrange(0, i as int) =~= lc@.take(i as int));
                assert(lc@.subrange(0, i + m) =~= lc@.take(i + m));
                if !(content.is_char_boundary(sb) && content.is_char_boundary(eb)) {
                    assert(mapped_hits(content@, lc@, hits) =~= Seq::<(int, int)>::empty());
                    assert(self.ranges() + Seq::<(int, int)>::empty() =~= self.ranges());
                    return;
                }
                proof {
                    crate::search::lemma_encode_concat(lc@.take(i as int), lc@.subrange(i as int, i + m));
                    assert(lc@.take(i as int) + lc@.subrange(i as int, i + m) =~= lc@.take(i + m));
                    vstd::utf8::is_char_boundary_start_end_of_seq(cb);
                }
                let head = byte_slice(content, 0, sb);
                let upto = byte_slice(content, 0, eb);
                let start = chars_of(head.as_str()).len();
                let end = chars_of(upto.as_str()).len();
                proof {
                    vstd::utf8::encode_utf8_decode_utf8(head@);
                    vstd::utf8::encode_utf8_decode_utf8(upto@);
                }
                self.matches.push(SearchMatch { start_char: start, end_char: end });
                assert(self.ranges() =~= before.push((start as int, end as int)));
                assert(mapped_hits(content@, lc@, hits) == seq![(start as int, end as int)] + mapped_hits(
                    content@,
                    lc@,
                    scan_occurrences(lc@, qc@, i + m),
                ));
                assert(self.ranges() + mapped_hits(content@, lc@, scan_occurrences(lc@, qc@, i + m)) =~= before
                    + (seq![(start as int, end as int)] + mapped_hits(content@, lc@, scan_occurrences(lc@, qc@, i + m))));
                i = i + m;
            } else {
                i = i + 1;
            }
        }
        assert(self.ranges() + Seq::<(int, int)>::empty() =~= self.ranges());
    }

    /// Makes the next hit current, wrapping around; searches first when there are no hits.
    pub fn next_match(&mut self, content: &str)
        requires
            old(self).matches@.len() > 0 ==> old(self).current < usize::MAX,
        ensures
            final(self).query == old(self).query,
            final(self).ranges() == old(self).hits_for(content@),
            final(self).wf(),
            final(self).current == if final(self).ranges().len() == 0 {
                0
            } else {
                step_forward(old(self).start_for(), final(self).ranges().len() as int)
            },
    {
        if self.matches.len() == 0 {
            self.recompute_matches(content);
        }
        if self.matches.len() > 0 {
            self.current = (self.current + 1) % self.matches.len();
        }
    }

    /// Makes the previous hit current, wrapping around; searches first when there are no hits.
    pub fn prev_match(&mut self, content: &str)
        ensures
            final(self).query == old(self).query,
            final(self).ranges() == old(self).hits_for(content@),
            old(self).wf() || old(self).matches@.len() == 0 ==> final(self).wf(),
            final(self).current == if final(self).ranges().len() == 0 {
                0
            } else {
                step_back(old(self).start_for(), final(self).ranges().len() as int)
            },
    {
        if self.matches.len() == 0 {
            self.recompute_matches(content);
        }
        if self.matches.len() > 0 {
            if self.current == 0 {
                self.current = self.matches.len() - 1;
            } else {
                self.current -= 1;
            }
        }
    }

    /// The current hit, if there is one.
    pub fn current_match(&self) -> (r: Option<&SearchMatch>)
        ensures
            r == (if self.current < self.matches@.len() {
                Some(&self.matches@[self.current as int])
            } else {
                None
            }),
    {
        self.matches.get(self.current)
    }
}

#[verifier::external_type_specification]
#[verifier::external_body]
pub struct ExInstant(Instant);

/// Calls `Instant::now`. Nothing is promised of the moment it reads.
#[verifier::external_body]
fn instant_now() -> Instant {
    Instant::now()
}

/// Calls `Instant::elapsed` on `t` and gives it in whole milliseconds. The
/// value depends on the clock, so nothing is promised of it.
#[verifier::external_body]
fn millis_since(t: &Instant) -> u128 {
    t.elapsed().as_millis()
}

/// The quiet time, in milliseconds, after the last keystroke before the vault search runs.
pub const DEBOUNCE_MILLIS: u128 = 150;

/// The most hits the vault search collects.
pub const MAX_GLOBAL_RESULTS: usize = 200;

/// One hit of the search across the vault: the first occurrence of the query in a line.
#[derive(Debug, Clone)]
pub struct GlobalMatch {
    pub path: String,
    pub line_no: usize,
    pub line_text: String,
    pub col_start: usize,
    pub col_end: usize,
}

/// A file of the vault with its text, as read from disk.
#[derive(Debug, Clone)]
pub struct VaultFile {
    pub path: String,
    pub text: String,
}

/// The search across all files of the vault.
pub struct GlobalSearch {
    pub query: String,
    pub results: Vec<GlobalMatch>,
    pub selected: usize,
    pub dirty: bool,
    pub last_typed: Option<Instant>,
}

/// A hit as plain values: path, line number, line, first and last byte column.
pub type HitView = (Seq<char>, usize, Seq<char>, usize, usize);

/// The number of bytes that the first `k` characters of `s` take in UTF-8.
pub open spec fn byte_offset(s: Seq<char>, k: int) -> int {
    encode_utf8(s.take(k)).len() as int
}

/// The hit in line `line` (number `line_no` of the file at `path`) for the
/// lowercased query `q`: its first occurrence in the lowercased line, with
/// the columns counted in bytes of the lowercased line.
pub open spec fn line_hit(path: Seq<char>, line_no: int, line: Seq<char>, q: Seq<char>) -> Option<HitView> {
    let lower = lowercase_of(line);
    match first_occurrence(lower, q, 0) {
        Some(k) => Some(
            (
                path,
                line_no as usize,
                line,
                byte_offset(lower, k) as usize,
                byte_offset(lower, k + q.len()) as usize,
            ),
        ),
        None => None,
    }
}

/// The hits in the lines of a file from line `from` on.
pub open spec fn hits_in_lines(path: Seq<char>, lines: Seq<Seq<char>>, q: Seq<char>, from: int) -> Seq<HitView>
    decreases lines.len() - from,
{
    if from < 0 || from >= lines.len() {
        Seq::empty()
    } else {
        let here = match line_hit(path, from, lines[from], q) {
            Some(h) => seq![h],
            None => Seq::empty(),
        };
        here + hits_in_lines(path, lines, q, from + 1)
    }
}

/// The hits in the files from file `from` on, skipping files that are not text.
pub open spec fn hits_in_files(files: Seq<(Seq<char>, Seq<char>)>, q: Seq<char>, from: int) -> Seq<HitView>
    decreases files.len() - from,
{
    if from < 0 || from >= files.len() {
        Seq::empty()
    } else {
        let here = if is_text_path(files[from].0) {
            hits_in_lines(files[from].0, lines_of(files[from].1), q, 0)
        } else {
            Seq::empty()
        };
        here + hits_in_files(files, q, from + 1)
    }
}

/// The files as plain values.
pub open spec fn file_views(files: Seq<VaultFile>) -> Seq<(Seq<char>, Seq<char>)> {
    files.map_values(|f: VaultFile| (f.path@, f.text@))
}

/// The hits of the vault search for `query` in `files`: none for a query of
/// fewer than two bytes, else the hits of the lowercased query, at most
/// `MAX_GLOBAL_RESULTS` of them.
pub open spec fn expected_global(query: Seq<char>, files: Seq<(Seq<char>, Seq<char>)>) -> Seq<HitView> {
    if (encode_utf8(query).len() as usize) < 2 {
        Seq::empty()
    } else {
        let all = hits_in_files(files, lowercase_of(query), 0);
        if all.len() <= MAX_GLOBAL_RESULTS {
            all
        } else {
            all.take(MAX_GLOBAL_RESULTS as int)
        }
    }
}

/// Whether the quiet time has passed, given the milliseconds since the last keystroke.
pub open spec fn settled(elapsed: Option<u128>) -> bool {
    match elapsed {
        Some(ms) => ms >= DEBOUNCE_MILLIS,
        None => false,
    }
}

/// Whether the quiet time has passed, given the milliseconds since the last keystroke.
pub fn is_settled(elapsed: Option<u128>) -> (r: bool)
    ensures
        r == settled(elapsed),
{
    match elapsed {
        Some(ms) => ms >= DEBOUNCE_MILLIS,
        None => false,
    }
}

impl GlobalMatch {
    /// The hit as plain values.
    pub open spec fn view_hit(&self) -> HitView {
        (self.path@, self.line_no, self.line_text@, self.col_start, self.col_end)
    }
}

impl GlobalSearch {
    /// The hits as plain values.
    pub open spec fn hits(&self) -> Seq<HitView> {
        self.results@.map_values(|m: GlobalMatch| m.view_hit())
    }

    /// An empty, settled search.
    pub fn new() -> (s: Self)
        ensures
            s.query@ == Seq::<char>::empty(),
            s.results@.len() == 0,
            s.selected == 0,
            !s.dirty,
            s.last_typed is None,
    {
        GlobalSearch {
            query: String::new(),
            results: Vec::new(),
            selected: 0,
            dirty: false,
            last_typed: None,
        }
    }

    /// Records a keystroke: the search is due once the quiet time has passed.
    pub fn mark_dirty(&mut self)
        ensures
            final(self).dirty,
            final(self).last_typed is Some,
            final(self).query == old(self).query,
            final(self).results == old(self).results,
            final(self).selected == old(self).selected,
    {
        self.dirty = true;
        self.last_typed = Some(instant_now());
    }

    /// Whether the vault search is due now: it is when a keystroke is pending
    /// and the quiet time has passed since the last one. A due search is
    /// marked as no longer pending; the caller then reads the vault and runs
    /// `run_search`.
    pub fn tick_debounce(&mut self) -> (fired: bool)
        ensures
            fired ==> old(self).dirty && old(self).last_typed is Some,
            final(self).dirty == (old(self).dirty && !fired),
            final(self).query == old(self).query,
            final(self).results == old(self).results,
            final(self).selected == old(self).selected,
            final(self).last_typed == old(self).last_typed,
    {
        if !self.dirty {
            return false;
        }
        let elapsed = match &self.last_typed {
            Some(t) => Some(millis_since(t)),
            None => None,
        };
        self.tick_debounce_at(elapsed)
    }

    /// The decision of `tick_debounce` given `elapsed`, the milliseconds
    /// since the last keystroke (none where none was recorded): the search is
    /// due exactly when a keystroke is pending and the quiet time has passed,
    /// and a due search is marked as no longer pending.
    pub fn tick_debounce_at(&mut self, elapsed: Option<u128>) -> (fired: bool)
        ensures
            fired == (old(self).dirty && settled(elapsed)),
            final(self).dirty == (old(self).dirty && !fired),
            final(self).query == old(self).query,
            final(self).results == old(self).results,
            final(self).selected == old(self).selected,
            final(self).last_typed == old(self).last_typed,
    {
        if self.dirty && is_settled(elapsed) {
            self.dirty = false;
            true
        } else {
            false
        }
    }

    /// Whether running the search needs the vault's files: the query is at
    /// least two bytes long, as `run_search` asks.
    pub fn needs_files(&self) -> (r: bool)
        ensures
            r == (encode_utf8(self.query@).len() >= 2),
    {
        self.query.as_str().as_bytes().len() >= 2
    }

    /// Runs the search for the query over `files` and selects the first hit.
    pub fn run_search(&mut self, files: &Vec<VaultFile>)
        ensures
            final(self).hits() == expected_global(old(self).query@, file_views(files@)),
            final(self).selected == 0,
            final(self).query == old(self).query,
            final(self).dirty == old(self).dirty,
            final(self).last_typed == old(self).last_typed,
    {
        self.results.clear();
        self.selected = 0;
        assert(self.hits() =~= Seq::<HitView>::empty());
        if self.query.as_str().len() < 2 {
            return;
        }
        let q = to_lower(self.query.as_str());
        let qc = chars_of(q.as_str());
        let ghost fv = file_views(files@);
        let ghost all = hits_in_files(fv, qc@, 0);
        let mut fi: usize = 0;
        while fi < files.len()
            invariant
                fi <= files@.len(),
                fv == file_views(files@),
                qc@ == lowercase_of(old(self).query@),
                all == hits_in_files(fv, qc@, 0),
                self.hits() + hits_in_files(fv, qc@, fi as int) == all,
                self.hits().len() < MAX_GLOBAL_RESULTS,
                self.selected == 0,
                self.query == old(self).query,
                self.dirty == old(self).dirty,
                self.last_typed == old(self).last_typed,
                (encode_utf8(old(self).query@).len() as usize) >= 2,
            decreases files@.len() - fi,
        {
            let file = &files[fi];
            let ghost path = fv[fi as int].0;
            let ghost text = fv[fi as int].1;
            if is_text_file(file.path.as_str()) {
                let tc = chars_of(file.text.as_str());
                let lines = split_lines(&tc);
                let ghost lv = char_rows(lines@);
                let mut li: usize = 0;
                while li < lines.len()
                    invariant
                        fi < files@.len(),
                        li <= lines@.len(),
                        lv == char_rows(lines@),
                        lv == lines_of(text),
                        path == file.path@,
                        fv == file_views(files@),
                        path == fv[fi as int].0,
                        text == fv[fi as int].1,
                        is_text_path(path),
                        qc@ == lowercase_of(old(self).query@),
                        all == hits_in_files(fv, qc@, 0),
                        self.hits() + hits_in_lines(path, lv, qc@, li as int) + hits_in_files(
                            fv,
                            qc@,
                            fi + 1,
                        ) == all,
                        self.hits().len() < MAX_GLOBAL_RESULTS,
                        self.selected == 0,
                        self.query == old(self).query,
                        self.dirty == old(self).dirty,
                        self.last_typed == old(self).last_typed,
                        (encode_utf8(old(self).query@).len() as usize) >= 2,
                    decreases lines@.len() - li,
                {
                    let line = string_of(lines[li].as_slice());
                    let lower = to_lower(line.as_str());
                    let lc = chars_of(lower.as_str());
                    let ghost before = self.hits();
                    let ghost rest = hits_in_lines(path, lv, qc@, li + 1);
                    assert(lines@[li as int]@ == lv[li as int]);
                    match find_from(&lc, &qc, 0) {
                        Some(k) => {
                            proof {
                                crate::text::lemma_first_occurrence(lc@, qc@, 0);
                            }
                            let line_len: usize = lc.len();
                            assert(k + qc@.len() <= line_len);
                            let start = lower.as_str().substring_char(0, k).len();
                            let end = lower.as_str().substring_char(0, k + qc.len()).len();
                            let hit = GlobalMatch {
                                path: file.path.clone(),
                                line_no: li,
                                line_text: line,
                                col_start: start,
                                col_end: end,
                            };
                            self.results.push(hit);
                            assert(self.hits() =~= before.push(hit.view_hit()));
                            assert(line_hit(path, li as int, lv[li as int], qc@) == Some(hit.view_hit()));
                            assert(self.hits() + hits_in_lines(path, lv, qc@, li + 1) =~= before + (
                            seq![hit.view_hit()] + rest));
                            if self.results.len() >= MAX_GLOBAL_RESULTS {
                                assert(all.take(MAX_GLOBAL_RESULTS as int) =~= self.hits());
                                return;
                            }
                        },
                        None => {
                            assert(line_hit(path, li as int, lv[li as int], qc@) is None);
                            assert(hits_in_lines(path, lv, qc@, li as int) =~= Seq::<HitView>::empty() + rest);
                        },
                    }
                    li += 1;
                }
                assert(hits_in_lines(path, lv, qc@, li as int) =~= Seq::<HitView>::empty());
                assert(hits_in_files(fv, qc@, fi as int) == hits_in_lines(path, lv, qc@, 0) + hits_in_files(fv, qc@, fi + 1));
            } else {
                assert(hits_in_files(fv, qc@, fi as int) =~= Seq::<HitView>::empty() + hits_in_files(fv, qc@, fi + 1));
            }
            fi += 1;
        }
        assert(self.hits() + Seq::<HitView>::empty() =~= self.hits());
    }

    /// Selects the next hit, stopping at the last.
    pub fn move_down(&mut self)
        ensures
            final(self).selected == step_down(old(self).selected as int, old(self).results@.len() as int),
            final(self).results == old(self).results,
            final(self).query == old(self).query,
    {
        if self.selected < self.results.len() && self.selected + 1 < self.results.len() {
            self.selected += 1;
        }
    }

    /// Selects the previous hit, stopping at the first.
    pub fn move_up(&mut self)
        ensures
            final(self).selected == step_up(old(self).selected as int),
            final(self).results == old(self).results,
            final(self).query == old(self).query,
    {
        if self.selected > 0 {
            self.selected -= 1;
        }
    }

    /// The path, line number and line of the selected hit, if there is one.
    pub fn selected_result(&self) -> (r: Option<(&String, usize, &str)>)
        ensures
            match r {
                Some((p, n, t)) => {
                    &&& self.selected < self.results@.len()
                    &&& p@ == self.results@[self.selected as int].path@
                    &&& n == self.results@[self.selected as int].line_no
                    &&& t@ == self.results@[self.selected as int].line_text@
                },
                None => self.selected >= self.results@.len(),
            },
    {
        if self.selected < self.results.len() {
            let m = &self.results[self.selected];
            Some((&m.path, m.line_no, m.line_text.as_str()))
        } else {
            None
        }
    }
}

/// Stepping forward then back, or back then forward, in a ring of `len`
/// positions returns to where it started: `prev_match` undoes `next_match`
/// and the other way round, whenever the hits stay the same.
pub proof fn lemma_step_round_trip(c: int, len: int)
    requires
        0 <= c < len,
    ensures
        step_back(step_forward(c, len), len) == c,
        step_forward(step_back(c, len), len) == c,
        0 <= step_forward(c, len) < len,
        0 <= step_back(c, len) < len,
{
    if c + 1 < len {
        assert((c + 1) % len == c + 1) by (nonlinear_arith)
            requires
                0 <= c + 1 < len,
        ;
    } else {
        assert((c + 1) % len == 0) by (nonlinear_arith)
            requires
                c + 1 == len,
                len > 0,
        ;
    }
    if c == 0 {
        assert(len % len == 0) by (nonlinear_arith)
            requires
                len > 0,
        ;
    } else {
        assert(c % len == c) by (nonlinear_arith)
            requires
                0 <= c < len,
        ;
    }
}

/// Moving down then up a list returns to the row it started from, unless it
/// started on the last row; moving up then down does, unless it started on the first.
pub proof fn lemma_move_round_trip(s: int, len: int)
    requires
        0 <= s < len,
    ensures
        s + 1 < len ==> step_up(step_down(s, len)) == s,
        s > 0 ==> step_down(step_up(s), len) == s,
        0 <= step_down(s, len) < len,
        0 <= step_up(s) < len,
{
}

/// Every hit of the scan is an occurrence of the pattern, the hits lie at or
/// after the start, and each ends at or before the next one begins.
pub proof fn lemma_scan_sound(hay: Seq<char>, pat: Seq<char>, i: int)
    requires
        i >= 0,
    ensures
        forall|k: int|
            0 <= k < scan_occurrences(hay, pat, i).len() ==> {
                let r = #[trigger] scan_occurrences(hay, pat, i)[k];
                &&& crate::text::occurs_at(hay, pat, r.0)
                &&& r.1 == r.0 + pat.len()
                &&& i <= r.0
            },
        forall|k: int|
            0 <= k < scan_occurrences(hay, pat, i).len() - 1 ==> (#[trigger] scan_occurrences(
                hay,
                pat,
                i,
            )[k]).1 <= scan_occurrences(hay, pat, i)[k + 1].0,
    decreases hay.len() - i,
{
    if pat.len() == 0 || i + pat.len() > hay.len() {
    } else if crate::text::occurs_at(hay, pat, i) {
        lemma_scan_sound(hay, pat, i + pat.len());
        let rest = scan_occurrences(hay, pat, i + pat.len());
        let all = scan_occurrences(hay, pat, i);
        assert(all == seq![(i, i + pat.len())] + rest);
        assert forall|k: int| 0 <= k < all.len() - 1 implies (#[trigger] all[k]).1 <= all[k + 1].0 by {
            if k > 0 {
                assert(all[k] == rest[k - 1]);
                assert(all[k + 1] == rest[k]);
            } else {
                assert(all[1] == rest[0]);
            }
        }
        assert forall|k: int| 0 <= k < all.len() implies {
            let r = #[trigger] all[k];
            &&& crate::text::occurs_at(hay, pat, r.0)
            &&& r.1 == r.0 + pat.len()
            &&& i <= r.0
        } by {
            if k > 0 {
                assert(all[k] == rest[k - 1]);
            }
        }
    } else {
        lemma_scan_sound(hay, pat, i + 1);
        assert(scan_occurrences(hay, pat, i) == scan_occurrences(hay, pat, i + 1));
    }
}

/// The first hit of the scan is the leftmost occurrence at or after the start,
/// and the scan finds nothing exactly when there is no such occurrence.
pub proof fn lemma_scan_first_is_leftmost(hay: Seq<char>, pat: Seq<char>, i: int)
    requires
        i >= 0,
        pat.len() > 0,
    ensures
        scan_occurrences(hay, pat, i).len() == 0 <==> crate::text::first_occurrence(hay, pat, i) is None,
        scan_occurrences(hay, pat, i).len() > 0 ==> crate::text::first_occurrence(hay, pat, i)
            == Some(scan_occurrences(hay, pat, i)[0].0),
    decreases hay.len() - i,
{
    if i + pat.len() > hay.len() {
    } else if crate::text::occurs_at(hay, pat, i) {
    } else {
        lemma_scan_first_is_leftmost(hay, pat, i + 1);
    }
}

/// A hit names a line of the file at `path` (among `lines`, at or after
/// `from`) whose lowercased text holds `q`.
pub open spec fn hit_in(h: HitView, path: Seq<char>, lines: Seq<Seq<char>>, q: Seq<char>, from: int) -> bool {
    &&& h.0 == path
    &&& exists|n: int| from <= n < lines.len() && h.1 == n as usize && h.2 == #[trigger] lines[n]
    &&& contains_seq(lowercase_of(h.2), q)
}

proof fn lemma_hits_in_lines(path: Seq<char>, lines: Seq<Seq<char>>, q: Seq<char>, from: int)
    requires
        0 <= from,
    ensures
        forall|k: int|
            0 <= k < hits_in_lines(path, lines, q, from).len() ==> hit_in(
                #[trigger] hits_in_lines(path, lines, q, from)[k],
                path,
                lines,
                q,
                from,
            ),
    decreases lines.len() - from,
{
    if from < lines.len() {
        lemma_hits_in_lines(path, lines, q, from + 1);
        let lower = lowercase_of(lines[from]);
        lemma_first_occurrence(lower, q, 0);
        let here = match line_hit(path, from, lines[from], q) {
            Some(h) => seq![h],
            None => Seq::empty(),
        };
        let rest = hits_in_lines(path, lines, q, from + 1);
        let all = hits_in_lines(path, lines, q, from);
        assert(all == here + rest);
        assert forall|k: int| 0 <= k < all.len() implies hit_in(#[trigger] all[k], path, lines, q, from) by {
            if k < here.len() {
                let i = first_occurrence(lower, q, 0)->0;
                assert(occurs_at(lower, q, i));
                assert(all[k].2 == lines[from]);
            } else {
                assert(all[k] == rest[k - here.len()]);
                let h = all[k];
                let n = choose|n: int| from + 1 <= n < lines.len() && h.1 == n as usize && h.2 == #[trigger] lines[n];
                assert(from <= n < lines.len() && h.1 == n as usize && h.2 == lines[n]);
            }
        }
    }
}

/// A hit names a line, holding `q`, of a text file among `files` from index `from` on.
pub open spec fn hit_in_files(h: HitView, files: Seq<(Seq<char>, Seq<char>)>, q: Seq<char>, from: int) -> bool {
    exists|f: int|
        #![trigger files[f]]
        from <= f < files.len() && is_text_path(files[f].0) && hit_in(h, files[f].0, lines_of(files[f].1), q, 0)
}

/// Every hit of the vault search lies in a text file (an `md`, `txt` or `sh`
/// file, or one without an extension), names one of its lines, and that
/// line holds the query, case aside; and there are at most `MAX_GLOBAL_RESULTS` hits.
pub proof fn lemma_global_hits(query: Seq<char>, files: Seq<(Seq<char>, Seq<char>)>)
    ensures
        expected_global(query, files).len() <= MAX_GLOBAL_RESULTS,
        forall|k: int|
            0 <= k < expected_global(query, files).len() ==> hit_in_files(
                #[trigger] expected_global(query, files)[k],
                files,
                lowercase_of(query),
                0,
            ),
{
    let q = lowercase_of(query);
    if (encode_utf8(query).len() as usize) >= 2 {
        lemma_hits_in_files(files, q, 0);
        let all = hits_in_files(files, q, 0);
        let r = expected_global(query, files);
        assert forall|k: int| 0 <= k < r.len() implies hit_in_files(#[trigger] r[k], files, q, 0) by {
            assert(r[k] == all[k]);
        }
    }
}

proof fn lemma_hits_in_files(files: Seq<(Seq<char>, Seq<char>)>, q: Seq<char>, from: int)
    requires
        0 <= from,
    ensures
        forall|k: int|
            0 <= k < hits_in_files(files, q, from).len() ==> hit_in_files(
                #[trigger] hits_in_files(files, q, from)[k],
                files,
                q,
                from,
            ),
    decreases files.len() - from,
{
    if from < files.len() {
        lemma_hits_in_files(files, q, from + 1);
        let here = if is_text_path(files[from].0) {
            hits_in_lines(files[from].0, lines_of(files[from].1), q, 0)
        } else {
            Seq::empty()
        };
        lemma_hits_in_lines(files[from].0, lines_of(files[from].1), q, 0);
        let rest = hits_in_files(files, q, from + 1);
        let all = hits_in_files(files, q, from);
        assert(all == here + rest);
        assert forall|k: int| 0 <= k < all.len() implies hit_in_files(#[trigger] all[k], files, q, from) by {
            if k < here.len() {
                assert(hit_in(here[k], files[from].0, lines_of(files[from].1), q, 0));
                assert(all[k] == here[k]);
                assert(is_text_path(files[from].0));
            } else {
                assert(all[k] == rest[k - here.len()]);
                assert(hit_in_files(rest[k - here.len()], files, q, from + 1));
                let f = choose|f: int|
                    #![trigger files[f]]
                    from + 1 <= f < files.len() && is_text_path(files[f].0) && hit_in(
                        rest[k - here.len()],
                        files[f].0,
                        lines_of(files[f].1),
                        q,
                        0,
                    );
            }
        }
    }
}

/// The UTF-8 encoding of two texts one after the other is their encodings one after the other.
pub proof fn lemma_encode_concat(a: Seq<char>, b: Seq<char>)
    ensures
        encode_utf8(a + b) == encode_utf8(a) + encode_utf8(b),
    decreases a.len(),
{
    if a.len() == 0 {
        assert(a + b =~= b);
        assert(encode_utf8(a) + encode_utf8(b) =~= encode_utf8(b));
    } else {
        lemma_encode_concat(a.drop_first(), b);
        assert((a + b).drop_first() =~= a.drop_first() + b);
        assert((a + b)[0] == a[0]);
    }
}

/// A hit of the vault search in a line marks an occurrence of the query in
/// the lowercased line: its first column is where the occurrence begins, in
/// bytes, and the occurrence ends exactly the query's length in bytes later.
pub proof fn lemma_hit_columns(path: Seq<char>, n: int, line: Seq<char>, q: Seq<char>)
    ensures
        line_hit(path, n, line, q) matches Some(h) ==> exists|k: int|
            #![trigger occurs_at(lowercase_of(line), q, k)]
            occurs_at(lowercase_of(line), q, k) && h.3 == byte_offset(lowercase_of(line), k) as usize
                && byte_offset(lowercase_of(line), k + q.len()) == byte_offset(lowercase_of(line), k)
                + encode_utf8(q).len(),
{
    let lower = lowercase_of(line);
    lemma_first_occurrence(lower, q, 0);
    if let Some(k) = first_occurrence(lower, q, 0) {
        assert(lower.take(k + q.len()) =~= lower.take(k) + lower.subrange(k, k + q.len()));
        lemma_encode_concat(lower.take(k), q);
        assert(occurs_at(lower, q, k));
    }
}

} // verus!
