use vstd::prelude::*;

use crate::paths::{file_name_of, path_components, language_extension, language_for, language_for_extension, path_file_name};
use crate::search::{SearchMatch, SearchState};
use ratatui_code_editor::editor::Editor;

verus! {

#[verifier::external_type_specification]
#[verifier::external_body]
pub struct ExEditor(Editor);

/// The text that an editor holds, as `Editor::get_content` gives it.
pub uninterp spec fn editor_text(e: Editor) -> Seq<char>;

/// The marks that an editor shows over its text, as `Editor::get_marks` gives
/// them: each a character range and its red, green and blue levels; none
/// where they were removed or never set.
pub uninterp spec fn editor_marks(e: Editor) -> Option<Seq<(usize, usize, (u8, u8, u8))>>;

/// Where an editor's cursor stands, as a character offset into its text.
pub uninterp spec fn editor_cursor(e: Editor) -> usize;

/// The first visual row an editor shows, its vertical scroll offset.
pub uninterp spec fn editor_offset(e: Editor) -> usize;

/// Whether an editor shows a difference against an original text
/// (`Editor::has_diff`).
pub uninterp spec fn editor_has_diff(e: Editor) -> bool;

/// The state every editor of the app keeps: its cursor within its text, and
/// no difference shown.
pub open spec fn editor_ok(e: Editor) -> bool {
    editor_cursor(e) <= editor_text(e).len() && !editor_has_diff(e)
}

/// The smaller of two numbers.
pub open spec fn min_of(a: int, b: int) -> int {
    if a < b {
        a
    } else {
        b
    }
}

/// The value of a hexadecimal digit.
pub open spec fn hex_value(c: char) -> int {
    if '0' <= c <= '9' {
        c as int - '0' as int
    } else if 'a' <= c <= 'f' {
        c as int - 'a' as int + 10
    } else {
        c as int - 'A' as int + 10
    }
}

/// `c` is a hexadecimal digit.
pub open spec fn is_hex_digit(c: char) -> bool {
    ('0' <= c <= '9') || ('a' <= c <= 'f') || ('A' <= c <= 'F')
}

/// `s` is a colour written `#rrggbb`.
pub open spec fn is_hex_colour(s: Seq<char>) -> bool {
    &&& s.len() == 7
    &&& s[0] == '#'
    &&& forall|i: int| 1 <= i < 7 ==> is_hex_digit(#[trigger] s[i])
}

/// The red, green and blue levels of a colour written `#rrggbb`.
pub open spec fn hex_rgb(s: Seq<char>) -> (u8, u8, u8) {
    (
        (hex_value(s[1]) * 16 + hex_value(s[2])) as u8,
        (hex_value(s[3]) * 16 + hex_value(s[4])) as u8,
        (hex_value(s[5]) * 16 + hex_value(s[6])) as u8,
    )
}

/// The marks as the editor keeps them: each colour read as its levels.
pub open spec fn rgb_marks(marks: Seq<(usize, usize, &'static str)>) -> Seq<(usize, usize, (u8, u8, u8))> {
    marks.map_values(|m: (usize, usize, &'static str)| (m.0, m.1, hex_rgb(m.2@)))
}

/// Calls `Editor::new` with the `vesper` theme. Its source shows that it
/// cannot fail: where `lang` names a grammar that does not load, it falls
/// back to `"text"`, which names none, and with no grammar nothing can fail.
/// The editor built holds `text`, no marks and no original text to compare
/// against, with its cursor at 0.
#[verifier::external_body]
fn new_editor(lang: &str, text: &str) -> (r: Result<Editor, anyhow::Error>)
    ensures
        r is Ok,
        editor_text(r->Ok_0) == text@,
        editor_marks(r->Ok_0) is None,
        editor_cursor(r->Ok_0) == 0,
        !editor_has_diff(r->Ok_0),
{
    Editor::new(lang, text, ratatui_code_editor::theme::vesper())
}

/// Calls `Editor::get_content`, which gives the text the editor holds.
#[verifier::external_body]
pub(crate) fn editor_content(e: &Editor) -> (r: String)
    ensures
        r@ == editor_text(*e),
{
    e.get_content()
}

/// Calls `Editor::set_marks`, which replaces the marks by the given character
/// ranges, each colour read by `utils::rgb` as the levels of its hexadecimal
/// digit pairs, and leaves the text as it is. `utils::rgb` slices the first
/// six bytes after the `#`, so each colour must be written `#rrggbb`.
#[verifier::external_body]
fn editor_set_marks(e: &mut Editor, marks: Vec<(usize, usize, &'static str)>)
    requires
        forall|i: int| 0 <= i < marks@.len() ==> is_hex_colour((#[trigger] marks@[i]).2@),
    ensures
        editor_marks(*final(e)) == Some(rgb_marks(marks@)),
        editor_text(*final(e)) == editor_text(*old(e)),
        editor_cursor(*final(e)) == editor_cursor(*old(e)),
        editor_offset(*final(e)) == editor_offset(*old(e)),
        editor_has_diff(*final(e)) == editor_has_diff(*old(e)),
{
    e.set_marks(marks)
}

/// Calls `Editor::remove_marks`, which drops the marks and leaves the text as it is.
#[verifier::external_body]
pub(crate) fn editor_remove_marks(e: &mut Editor)
    ensures
        editor_marks(*final(e)) is None,
        editor_text(*final(e)) == editor_text(*old(e)),
        editor_cursor(*final(e)) == editor_cursor(*old(e)),
        editor_offset(*final(e)) == editor_offset(*old(e)),
        editor_has_diff(*final(e)) == editor_has_diff(*old(e)),
{
    e.remove_marks()
}

/// Calls `Editor::set_cursor`, which puts the cursor at `pos`, clamped to the
/// length of the text by `fit_cursor` (whose second clamp, to the end of the
/// cursor's line, never moves a position within the text), and leaves the
/// text, the marks and the scroll offset as they are.
#[verifier::external_body]
pub(crate) fn editor_set_cursor(e: &mut Editor, pos: usize)
    ensures
        editor_text(*final(e)) == editor_text(*old(e)),
        editor_marks(*final(e)) == editor_marks(*old(e)),
        editor_cursor(*final(e)) == min_of(pos as int, editor_text(*old(e)).len() as int),
        editor_offset(*final(e)) == editor_offset(*old(e)),
        editor_has_diff(*final(e)) == editor_has_diff(*old(e)),
{
    e.set_cursor(pos)
}

/// The colour of the current search hit.
pub const CURRENT_MARK: &'static str = "#00ff00";

/// The colour of the other search hits.
pub const OTHER_MARK: &'static str = "#ffff00";

/// One open document, or an empty buffer.
pub struct Tab {
    /// The file shown, or none for a new buffer.
    pub path: Option<String>,
    /// The editor widget holding the text.
    pub editor: Editor,
    /// Whether the text has changes not yet saved.
    pub dirty: bool,
    /// The search within this file.
    pub in_file_search: SearchState,
}

/// A tab that shows no file, has no changes and no search.
pub open spec fn is_blank(t: Tab) -> bool {
    &&& t.path is None
    &&& !t.dirty
    &&& t.in_file_search.query@.len() == 0
    &&& t.in_file_search.matches@.len() == 0
    &&& t.in_file_search.current == 0
    &&& editor_text(t.editor).len() == 0
    &&& editor_ok(t.editor)
}

/// The title shown in the tab bar for a tab with this path and dirty flag.
pub open spec fn tab_title(path: Option<Seq<char>>, dirty: bool) -> Seq<char> {
    match path {
        None => "[ new ]"@,
        Some(p) => {
            let name = match file_name_of(p) {
                Some(n) => n,
                None => "?"@,
            };
            if dirty {
                name + " [+]"@
            } else {
                name
            }
        },
    }
}

/// The view of an optional string.
pub open spec fn path_view(p: Option<String>) -> Option<Seq<char>> {
    match p {
        Some(s) => Some(s@),
        None => None,
    }
}

/// The file a path names, as its components: two paths name the same file
/// where these agree.
pub open spec fn path_key(p: Option<String>) -> Option<Seq<Seq<char>>> {
    match p {
        Some(s) => Some(path_components(s@)),
        None => None,
    }
}

/// The marks that show the search hits: each hit's range, in the current
/// colour for the current hit and the other colour for the rest.
pub open spec fn marks_for(matches: Seq<SearchMatch>, current: usize) -> Seq<(usize, usize, Seq<char>)> {
    Seq::new(
        matches.len(),
        |i: int|
            (
                matches[i].start_char,
                matches[i].end_char,
                if i == current {
                    CURRENT_MARK@
                } else {
                    OTHER_MARK@
                },
            ),
    )
}

/// The levels of the current hit's colour, green.
pub open spec fn current_rgb() -> (u8, u8, u8) {
    (0, 255, 0)
}

/// The levels of the other hits' colour, yellow.
pub open spec fn other_rgb() -> (u8, u8, u8) {
    (255, 255, 0)
}

/// The marks the editor shows for a search: none without hits, else each
/// hit's range, green for the current hit and yellow for the others.
pub open spec fn shown_marks(s: SearchState) -> Option<Seq<(usize, usize, (u8, u8, u8))>> {
    if s.matches@.len() == 0 {
        None
    } else {
        Some(
            Seq::new(
                s.matches@.len(),
                |i: int|
                    (
                        s.matches@[i].start_char,
                        s.matches@[i].end_char,
                        if i == s.current {
                            current_rgb()
                        } else {
                            other_rgb()
                        },
                    ),
            ),
        )
    }
}

/// The marks as plain values.
pub open spec fn mark_views(marks: Seq<(usize, usize, &'static str)>) -> Seq<(usize, usize, Seq<char>)> {
    marks.map_values(|m: (usize, usize, &'static str)| (m.0, m.1, m.2@))
}

/// The marks that show the search hits `matches` when hit `current` is the current one.
pub fn search_marks(matches: &Vec<SearchMatch>, current: usize) -> (r: Vec<(usize, usize, &'static str)>)
    ensures
        mark_views(r@) == marks_for(matches@, current),
{
    let mut marks: Vec<(usize, usize, &'static str)> = Vec::new();
    let mut i: usize = 0;
    while i < matches.len()
        invariant
            i <= matches@.len(),
            mark_views(marks@) == marks_for(matches@.take(i as int), current),
        decreases matches@.len() - i,
    {
        let color = if i == current {
            CURRENT_MARK
        } else {
            OTHER_MARK
        };
        let ghost before = mark_views(marks@);
        let ghost prev = marks@;
        let item = (matches[i].start_char, matches[i].end_char, color);
        marks.push(item);
        assert(marks@ == prev.push(item));
        assert(mark_views(marks@) =~= before.push((item.0, item.1, item.2@)));
        assert(marks_for(matches@.take(i + 1), current) =~= marks_for(matches@.take(i as int), current).push(
            (item.0, item.1, item.2@),
        ));
        i += 1;
    }
    assert(matches@.take(i as int) =~= matches@);
    marks
}

impl Tab {
    /// A new, empty buffer.
    pub fn empty() -> (t: Tab)
        ensures
            is_blank(t),
            editor_marks(t.editor) is None,
            editor_ok(t.editor),
    {
        let editor = new_editor("md", "").unwrap();
        proof {
            reveal_strlit("");
        }
        Tab { path: None, editor, dirty: false, in_file_search: SearchState::new() }
    }

    /// The title for the tab bar: the file name, with ` [+]` after it when
    /// there are unsaved changes; `[ new ]` for a new buffer.
    pub fn title(&self) -> (r: String)
        ensures
            r@ == tab_title(path_view(self.path), self.dirty),
    {
        match &self.path {
            None => String::from_str("[ new ]"),
            Some(p) => {
                let mut name = match path_file_name(p.as_str()) {
                    Some(n) => n,
                    None => String::from_str("?"),
                };
                if self.dirty {
                    name.append(" [+]");
                }
                name
            },
        }
    }

    /// A tab showing `text`, read from the file at `path`, highlighted in the
    /// language of its extension.
    pub fn load(path: String, text: &str) -> (t: Tab)
        ensures
            path_view(t.path) == Some(path@),
            !t.dirty,
            t.in_file_search.query@.len() == 0,
            t.in_file_search.matches@.len() == 0,
            t.in_file_search.current == 0,
            editor_text(t.editor) == text@,
            editor_marks(t.editor) is None,
            editor_ok(t.editor),
    {
        let lang = language_for(path.as_str());
        let editor = match new_editor(lang, text) {
            Ok(e) => e,
            Err(_) => new_editor("text", text).unwrap(),
        };
        Tab { path: Some(path), editor, dirty: false, in_file_search: SearchState::new() }
    }

    /// Shows the search hits in the editor: the current one in its own colour;
    /// with no hits, removes the marks.
    pub fn update_search_marks(&mut self)
        ensures
            final(self).path == old(self).path,
            final(self).dirty == old(self).dirty,
            final(self).in_file_search == old(self).in_file_search,
            editor_marks(final(self).editor) == shown_marks(old(self).in_file_search),
            editor_text(final(self).editor) == editor_text(old(self).editor),
            editor_cursor(final(self).editor) == editor_cursor(old(self).editor),
            editor_has_diff(final(self).editor) == editor_has_diff(old(self).editor),
    {
        if self.in_file_search.matches.len() == 0 {
            editor_remove_marks(&mut self.editor);
        } else {
            let marks = search_marks(&self.in_file_search.matches, self.in_file_search.current);
            proof {
                reveal_strlit("#00ff00");
                reveal_strlit("#ffff00");
                assert(is_hex_colour(CURRENT_MARK@));
                assert(is_hex_colour(OTHER_MARK@));
                assert(hex_rgb(CURRENT_MARK@) == current_rgb());
                assert(hex_rgb(OTHER_MARK@) == other_rgb());
                let mf = marks_for(self.in_file_search.matches@, self.in_file_search.current);
                assert(mark_views(marks@).len() == marks@.len());
                assert forall|i: int| 0 <= i < marks@.len() implies (#[trigger] marks@[i]).2@ == (if i
                    == self.in_file_search.current {
                    CURRENT_MARK@
                } else {
                    OTHER_MARK@
                }) by {
                    assert(mark_views(marks@)[i] == mf[i]);
                    assert(mark_views(marks@)[i].2 == marks@[i].2@);
                }
                assert forall|i: int| 0 <= i < marks@.len() implies is_hex_colour((#[trigger] marks@[i]).2@) by {
                    assert(marks@[i].2@ == CURRENT_MARK@ || marks@[i].2@ == OTHER_MARK@);
                }
                assert(rgb_marks(marks@) =~= shown_marks(self.in_file_search)->Some_0) by {
                    assert forall|i: int| 0 <= i < marks@.len() implies #[trigger] rgb_marks(marks@)[i]
                        == shown_marks(self.in_file_search)->Some_0[i] by {
                        assert(mark_views(marks@)[i] == mf[i]);
                        assert(mark_views(marks@)[i].0 == marks@[i].0);
                        assert(mark_views(marks@)[i].1 == marks@[i].1);
                        assert(marks@[i].2@ == CURRENT_MARK@ || marks@[i].2@ == OTHER_MARK@);
                    }
                }
            }
            editor_set_marks(&mut self.editor, marks);
        }
    }
}

} // verus!
