use vstd::prelude::*;

use crate::app::{area_contains, open_candidates, status_for, App, Area, Mode, Pane};
use crate::filetree::{
    collect_all_files, file_paths, left_step, lemma_depth_bounded, string_views, toggled, tree_wf,
    walked_from, EntryView,
};
use crate::search::{
    expected_matches, step_back, step_down, step_forward, step_up, GlobalSearch, SearchState,
};
use crate::tabs::{is_blank, path_view, editor_content, editor_cursor, editor_has_diff, editor_marks, editor_offset, editor_ok, min_of, editor_remove_marks, editor_set_cursor, editor_text, shown_marks, Tab};
use crate::text::{chars_of, lines_of, split_lines, char_rows};
use crossterm::event::{KeyEvent, MouseEvent};
use ratatui_code_editor::editor::Editor;

verus! {

#[verifier::external_type_specification]
#[verifier::external_body]
pub struct ExKeyEvent(KeyEvent);

#[verifier::external_type_specification]
#[verifier::external_body]
pub struct ExMouseEvent(MouseEvent);

/// The keys that the editor tells apart.
#[derive(Debug, Clone, Copy, PartialEq, Eq, Structural)]
pub enum KeyCode {
    Char(char),
    Esc,
    Enter,
    Backspace,
    Up,
    Down,
    Left,
    Right,
    PageUp,
    PageDown,
    Home,
    End,
    Other,
}

/// No modifier held.
pub const NO_MODIFIERS: u8 = 0;
/// The Shift modifier bit.
pub const SHIFT: u8 = 1;
/// The Control modifier bit.
pub const CONTROL: u8 = 2;
/// The Alt modifier bit.
pub const ALT: u8 = 4;

/// A key press: the key, the exact set of modifiers held, and the terminal's
/// own event, which the editor widget reads when typing.
pub struct Key {
    pub code: KeyCode,
    pub modifiers: u8,
    pub raw: KeyEvent,
}

/// A cursor movement passed on to the editor widget.
#[derive(Debug, Clone, Copy, PartialEq, Eq, Structural)]
pub enum Motion {
    Up,
    Down,
    Left,
    Right,
    Home,
    End,
}

/// Calls `Editor::input` with the key of a motion, without modifiers, and
/// the editor's area; it always returns `Ok`. Its source handles these keys
/// by `MoveUp`, `MoveDown`, `MoveLeft` and `MoveRight` (Home and End it
/// ignores), then fits the view. The text, the marks and the diff stay as
/// they are. `MoveUp` goes to a position on an earlier line, or stays;
/// `MoveDown` to one on a later line, or stays; for Home and End the cursor
/// stays. Reading the cursor's line (`Code::point`) panics past the end of
/// the text, so the cursor must lie within it.
#[verifier::external_body]
fn editor_move(e: &mut Editor, m: Motion, area: Area)
    requires
        editor_ok(*old(e)),
    ensures
        editor_text(*final(e)) == editor_text(*old(e)),
        editor_marks(*final(e)) == editor_marks(*old(e)),
        editor_ok(*final(e)),
        m == Motion::Up ==> editor_cursor(*final(e)) <= editor_cursor(*old(e)),
        m == Motion::Down ==> editor_cursor(*final(e)) >= editor_cursor(*old(e)),
        m == Motion::Home || m == Motion::End ==> editor_cursor(*final(e)) == editor_cursor(*old(e)),
{
    let code = match m {
        Motion::Up => crossterm::event::KeyCode::Up,
        Motion::Down => crossterm::event::KeyCode::Down,
        Motion::Left => crossterm::event::KeyCode::Left,
        Motion::Right => crossterm::event::KeyCode::Right,
        Motion::Home => crossterm::event::KeyCode::Home,
        Motion::End => crossterm::event::KeyCode::End,
    };
    let rect = ratatui::layout::Rect { x: area.x, y: area.y, width: area.width, height: area.height };
    let _ = e.input(KeyEvent::new(code, crossterm::event::KeyModifiers::NONE), &rect);
}

/// Calls `Editor::input` with the key and the editor's area. Its source
/// always returns `Ok`, so the result is dropped; it ends by fitting the
/// cursor into the text, and leaves the diff as it is. It reads the
/// cursor's line, so the cursor must lie within the text.
#[verifier::external_body]
fn editor_input(e: &mut Editor, key: KeyEvent, area: Area)
    requires
        editor_ok(*old(e)),
    ensures
        editor_ok(*final(e)),
{
    let rect = ratatui::layout::Rect { x: area.x, y: area.y, width: area.width, height: area.height };
    let _ = e.input(key, &rect);
}

/// Calls `Editor::mouse` with the event and the editor's area. Its source
/// always returns `Ok`, so the result is dropped. It scrolls, folds, or
/// moves the cursor and the selection to positions within the text; the
/// text, the marks and the diff stay as they are.
#[verifier::external_body]
fn editor_mouse(e: &mut Editor, m: MouseEvent, area: Area)
    requires
        editor_ok(*old(e)),
    ensures
        editor_text(*final(e)) == editor_text(*old(e)),
        editor_marks(*final(e)) == editor_marks(*old(e)),
        editor_ok(*final(e)),
{
    let rect = ratatui::layout::Rect { x: area.x, y: area.y, width: area.width, height: area.height };
    let _ = e.mouse(m, &rect);
}

/// Calls `Editor::scroll_down` for a view `height` lines high: the view
/// moves one row down unless it already shows the last rows. The text, the
/// marks, the cursor and the diff stay as they are.
#[verifier::external_body]
fn editor_scroll_down(e: &mut Editor, height: usize)
    ensures
        editor_text(*final(e)) == editor_text(*old(e)),
        editor_marks(*final(e)) == editor_marks(*old(e)),
        editor_cursor(*final(e)) == editor_cursor(*old(e)),
        editor_has_diff(*final(e)) == editor_has_diff(*old(e)),
        editor_offset(*final(e)) == editor_offset(*old(e)) || editor_offset(*final(e))
            == editor_offset(*old(e)) + 1,
{
    e.scroll_down(height)
}

/// Calls `Editor::scroll_up`: the view moves one row up unless it shows
/// the first row. The text, the marks, the cursor and the diff stay as they are.
#[verifier::external_body]
fn editor_scroll_up(e: &mut Editor)
    ensures
        editor_text(*final(e)) == editor_text(*old(e)),
        editor_marks(*final(e)) == editor_marks(*old(e)),
        editor_cursor(*final(e)) == editor_cursor(*old(e)),
        editor_has_diff(*final(e)) == editor_has_diff(*old(e)),
        editor_offset(*final(e)) == if editor_offset(*old(e)) > 0 {
            editor_offset(*old(e)) - 1
        } else {
            0
        },
{
    e.scroll_up()
}

/// Calls `Path::is_dir`, which asks the file system; nothing is promised of the answer.
#[verifier::external_body]
fn path_is_dir(p: &str) -> bool {
    std::path::Path::new(p).is_dir()
}

/// What is left to do after a file has been opened.
#[derive(Debug, Clone, Copy, PartialEq, Eq, Structural)]
pub enum AfterOpen {
    /// Back to normal mode with the editor focused.
    FocusEditor,
    /// Back to normal mode.
    Normal,
    /// Put the cursor at the start of this line, then back to normal mode.
    JumpToLine(usize),
}

/// What a key asks of the caller.
pub enum KeyOutcome {
    /// Nothing more.
    Continue,
    /// Leave the editor.
    Quit,
    /// Save the active tab, then call `App::note_saved`.
    Save,
    /// Open this file, then call `App::finish_open` with `then`.
    Open { path: String, then: AfterOpen },
}

/// The sum of the lengths of the first `k` lines, each counted with one more
/// character for its line ending.
pub open spec fn chars_before(lines: Seq<Seq<char>>, k: int) -> int
    decreases k,
{
    if k <= 0 || lines.len() == 0 {
        0
    } else if k > lines.len() {
        chars_before(lines, lines.len() as int)
    } else {
        chars_before(lines, k - 1) + lines[k - 1].len() + 1
    }
}

/// The character offset at which line `line_no` of `content` starts, counting
/// one character for each line ending (at most `usize::MAX`).
pub open spec fn line_start_offset(content: Seq<char>, line_no: int) -> int {
    let s = chars_before(lines_of(content), line_no);
    if s > usize::MAX {
        usize::MAX as int
    } else {
        s
    }
}

/// The character offset at which line `line_no` of `content` starts.
pub fn line_start(content: &str, line_no: usize) -> (r: usize)
    ensures
        r == line_start_offset(content@, line_no as int),
{
    let cs = chars_of(content);
    let lines = split_lines(&cs);
    let ghost lv = char_rows(lines@);
    let mut count: usize = 0;
    let mut i: usize = 0;
    while i < lines.len() && i < line_no
        invariant
            lv == char_rows(lines@),
            lv == lines_of(content@),
            i <= lines@.len(),
            i <= line_no,
            count == if chars_before(lv, i as int) > usize::MAX {
                usize::MAX as int
            } else {
                chars_before(lv, i as int)
            },
        decreases lines@.len() - i,
    {
        let n = lines[i].len();
        assert(lines@[i as int]@.len() == lv[i as int].len());
        count = count.saturating_add(n).saturating_add(1);
        i += 1;
    }
    assert(chars_before(lv, line_no as int) == chars_before(lv, i as int));
    count
}

/// Where the current hit of tab `u` begins, if it has hits, the cursor of
/// its editor stands there (clamped to the length of `text`).
pub open spec fn cursor_at_hit(text: Seq<char>, u: Tab) -> bool {
    let s = u.in_file_search;
    s.matches@.len() > 0 ==> editor_cursor(u.editor) == min_of(
        s.matches@[s.current as int].start_char as int,
        text.len() as int,
    )
}

/// Tab `u` is tab `t` after a step of its search, forward or back: the same
/// file and query, the hits of `t` (or, where it had none, those of a fresh
/// search in its text), the next or previous hit current, and the hits shown
/// over the same text.
pub open spec fn stepped(t: Tab, u: Tab, forward: bool) -> bool {
    let hits = t.in_file_search.hits_for(editor_text(t.editor));
    &&& u.path == t.path
    &&& u.dirty == t.dirty
    &&& u.in_file_search.query == t.in_file_search.query
    &&& u.in_file_search.ranges() == hits
    &&& u.in_file_search.current == if hits.len() == 0 {
        0
    } else if forward {
        step_forward(t.in_file_search.start_for(), hits.len() as int)
    } else {
        step_back(t.in_file_search.start_for(), hits.len() as int)
    }
    &&& editor_text(u.editor) == editor_text(t.editor)
    &&& editor_marks(u.editor) == shown_marks(u.in_file_search)
    &&& cursor_at_hit(editor_text(t.editor), u)
}

/// Tab `u` is tab `t` with its search done again: the same file and query,
/// the hits of the query in its text, the first one current, and the hits
/// shown over the same text.
pub open spec fn researched(t: Tab, u: Tab) -> bool {
    &&& u.path == t.path
    &&& u.dirty == t.dirty
    &&& u.in_file_search.query == t.in_file_search.query
    &&& u.in_file_search.ranges() == expected_matches(t.in_file_search.query@, editor_text(t.editor))
    &&& u.in_file_search.current == 0
    &&& editor_text(u.editor) == editor_text(t.editor)
    &&& editor_marks(u.editor) == shown_marks(u.in_file_search)
}

impl App {
    /// The invariant kept between keys: the tabs are well formed, the sidebar
    /// tree is well shaped and each tab's search has a valid current hit.
    pub open spec fn inv(&self) -> bool {
        &&& self.wf()
        &&& tree_wf(self.file_tree.nodes())
        &&& forall|i: int|
            0 <= i < self.tabs@.len() ==> (#[trigger] self.tabs@[i]).in_file_search.wf() && editor_ok(
                self.tabs@[i].editor,
            )
    }

    /// Steps the active tab's search forward or back, puts the cursor on the
    /// current hit and shows the hits.
    fn step_search(&mut self, forward: bool)
        requires
            old(self).inv(),
        ensures
            final(self).inv(),
            final(self).only_tabs_changed(*old(self)),
            final(self).mode == old(self).mode,
            final(self).tabs@.len() == old(self).tabs@.len(),
            final(self).active_tab == old(self).active_tab,
            final(self).tabs@ == old(self).tabs@.update(
                old(self).active_tab as int,
                final(self).tabs@[old(self).active_tab as int],
            ),
            stepped(
                old(self).tabs@[old(self).active_tab as int],
                final(self).tabs@[old(self).active_tab as int],
                forward,
            ),
    {
        proof {
            assert(self.tabs@[self.active_tab as int].in_file_search.wf());
        }
        let ghost before = self.tabs@;
        let ghost a = self.active_tab as int;
        let tab = self.tab_mut();
        let count = tab.in_file_search.matches.len();
        assert(count == 0 || tab.in_file_search.current < count);
        let content = editor_content(&tab.editor);
        if forward {
            tab.in_file_search.next_match(content.as_str());
        } else {
            tab.in_file_search.prev_match(content.as_str());
        }
        match tab.in_file_search.current_match() {
            Some(m) => {
                let start = m.start_char;
                editor_set_cursor(&mut tab.editor, start);
            },
            None => {},
        }
        tab.update_search_marks();
        proof {
            lemma_inv_update(before, a, self.tabs@[a]);
            assert(self.tabs@ =~= before.update(a, self.tabs@[a]));
        }
    }

    /// Redoes the active tab's search after the query changed and shows the hits.
    fn research(&mut self, move_cursor: bool)
        requires
            old(self).inv(),
        ensures
            final(self).inv(),
            final(self).only_tabs_changed(*old(self)),
            final(self).mode == old(self).mode,
            final(self).tabs@.len() == old(self).tabs@.len(),
            final(self).active_tab == old(self).active_tab,
            final(self).tabs@ == old(self).tabs@.update(
                old(self).active_tab as int,
                final(self).tabs@[old(self).active_tab as int],
            ),
            researched(
                old(self).tabs@[old(self).active_tab as int],
                final(self).tabs@[old(self).active_tab as int],
            ),
            move_cursor ==> cursor_at_hit(
                editor_text(old(self).tabs@[old(self).active_tab as int].editor),
                final(self).tabs@[old(self).active_tab as int],
            ),
    {
        let ghost before = self.tabs@;
        let ghost a = self.active_tab as int;
        let tab = self.tab_mut();
        let content = editor_content(&tab.editor);
        tab.in_file_search.recompute_matches(content.as_str());
        if move_cursor {
            match tab.in_file_search.current_match() {
                Some(m) => {
                    let start = m.start_char;
                    editor_set_cursor(&mut tab.editor, start);
                },
                None => {},
            }
        }
        tab.update_search_marks();
        proof {
            lemma_inv_update(before, a, self.tabs@[a]);
            assert(self.tabs@ =~= before.update(a, self.tabs@[a]));
        }
    }

    /// Finishes opening a file: leaves the dialog or sidebar for normal mode,
    /// and for a hit of the vault search puts the cursor at its line.
    pub fn finish_open(&mut self, then: AfterOpen)
        requires
            old(self).inv(),
        ensures
            final(self).inv(),
            final(self).mode == Mode::Normal,
            then == AfterOpen::FocusEditor ==> final(self).active_pane == Pane::Editor,
            then != AfterOpen::FocusEditor ==> final(self).active_pane == old(self).active_pane,
            final(self).tabs@.len() == old(self).tabs@.len(),
            final(self).active_tab == old(self).active_tab,
            forall|i: int|
                0 <= i < old(self).tabs@.len() && i != old(self).active_tab ==> final(self).tabs@[i]
                    == old(self).tabs@[i],
            then matches AfterOpen::JumpToLine(n) ==> {
                let t = old(self).tabs@[old(self).active_tab as int];
                let u = final(self).tabs@[old(self).active_tab as int];
                let text = editor_text(t.editor);
                let pos = line_start_offset(text, n as int);
                &&& only_view_moved(t, u)
                &&& editor_cursor(u.editor) == min_of(pos, text.len() as int)
            },
            !(then is JumpToLine) ==> final(self).tabs == old(self).tabs,
    {
        match then {
            AfterOpen::FocusEditor => {
                self.mode = Mode::Normal;
                self.active_pane = Pane::Editor;
            },
            AfterOpen::Normal => {
                self.mode = Mode::Normal;
            },
            AfterOpen::JumpToLine(line_no) => {
                let ghost before = self.tabs@;
                let ghost a = self.active_tab as int;
                proof {
                    assert(before[a].in_file_search.wf());
                }
                let tab = self.tab_mut();
                let content = editor_content(&tab.editor);
                let pos = line_start(content.as_str(), line_no);
                editor_set_cursor(&mut tab.editor, pos);
                proof {
                    lemma_inv_update(before, a, self.tabs@[a]);
                    assert(self.tabs@ =~= before.update(a, self.tabs@[a]));
                }
                self.mode = Mode::Normal;
            },
        }
    }
}

/// The key is `code` with exactly the modifiers `mods`.
pub open spec fn key_is(k: &Key, mods: u8, code: KeyCode) -> bool {
    k.modifiers == mods && k.code == code
}

/// The mode after key `k` in mode `m`, for keys that do not open a file.
/// `sidebar` tells whether the sidebar is shown and `picked` whether the
/// open-file dialog has a file selected.
pub open spec fn mode_after(m: Mode, k: &Key, sidebar: bool, picked: bool) -> Mode {
    match m {
        Mode::Insert => if k.code == KeyCode::Esc {
            Mode::Normal
        } else {
            Mode::Insert
        },
        Mode::InFileSearch => if key_is(k, NO_MODIFIERS, KeyCode::Esc) || key_is(
            k,
            NO_MODIFIERS,
            KeyCode::Enter,
        ) {
            Mode::Normal
        } else {
            Mode::InFileSearch
        },
        Mode::FileOpen => if key_is(k, NO_MODIFIERS, KeyCode::Esc) || (key_is(
            k,
            NO_MODIFIERS,
            KeyCode::Enter,
        ) && !picked) {
            Mode::Normal
        } else {
            Mode::FileOpen
        },
        Mode::GlobalSearch => if key_is(k, NO_MODIFIERS, KeyCode::Esc) {
            Mode::Normal
        } else {
            Mode::GlobalSearch
        },
        Mode::SidePanel => if key_is(k, NO_MODIFIERS, KeyCode::Esc) || key_is(
            k,
            CONTROL,
            KeyCode::Char('b'),
        ) {
            Mode::Normal
        } else {
            Mode::SidePanel
        },
        Mode::Normal => if key_is(k, CONTROL, KeyCode::Char('e')) && sidebar {
            Mode::SidePanel
        } else if key_is(k, NO_MODIFIERS, KeyCode::Char('e')) || key_is(
            k,
            NO_MODIFIERS,
            KeyCode::Char('i'),
        ) || key_is(k, NO_MODIFIERS, KeyCode::Enter) {
            Mode::Insert
        } else if key_is(k, CONTROL, KeyCode::Char('f')) {
            Mode::InFileSearch
        } else if key_is(k, CONTROL, KeyCode::Char('p')) {
            Mode::FileOpen
        } else if key_is(k, CONTROL, KeyCode::Char('g')) {
            Mode::GlobalSearch
        } else {
            Mode::Normal
        },
    }
}

/// Of two states of the editor, only the active tab may differ, and the
/// other tabs are as they were.
pub open spec fn only_active_tab_changed(a: App, b: App) -> bool {
    &&& b.only_tabs_changed(a)
    &&& b.tabs@.len() == a.tabs@.len()
    &&& forall|i: int| 0 <= i < a.tabs@.len() && i != a.active_tab ==> b.tabs@[i] == a.tabs@[i]
}

/// Tab `u` is tab `t` with at most its cursor and view moved: the same file,
/// changes, search, text and marks.
pub open spec fn only_view_moved(t: Tab, u: Tab) -> bool {
    &&& u.path == t.path
    &&& u.dirty == t.dirty
    &&& u.in_file_search == t.in_file_search
    &&& editor_text(u.editor) == editor_text(t.editor)
    &&& editor_marks(u.editor) == editor_marks(t.editor)
}

/// Tab `u` is tab `t` with its search query made `q` and searched again: the
/// hits of `q` in its text, the first one current, and those hits shown.
pub open spec fn searched(t: Tab, u: Tab, q: Seq<char>) -> bool {
    &&& u.path == t.path
    &&& u.dirty == t.dirty
    &&& u.in_file_search.query@ == q
    &&& u.in_file_search.ranges() == expected_matches(q, editor_text(t.editor))
    &&& u.in_file_search.current == 0
    &&& editor_text(u.editor) == editor_text(t.editor)
    &&& editor_marks(u.editor) == shown_marks(u.in_file_search)
}

/// A query with its last character taken off, if it has one.
pub open spec fn popped(q: Seq<char>) -> Seq<char> {
    if q.len() == 0 {
        q
    } else {
        q.drop_last()
    }
}

/// A key that moves the cursor in normal mode.
pub open spec fn is_motion_key(k: &Key) -> bool {
    ||| key_is(k, NO_MODIFIERS, KeyCode::Down)
    ||| key_is(k, NO_MODIFIERS, KeyCode::Char('j'))
    ||| key_is(k, NO_MODIFIERS, KeyCode::Up)
    ||| key_is(k, NO_MODIFIERS, KeyCode::Char('k'))
    ||| key_is(k, NO_MODIFIERS, KeyCode::Left)
    ||| key_is(k, NO_MODIFIERS, KeyCode::Char('h'))
    ||| key_is(k, NO_MODIFIERS, KeyCode::Right)
    ||| key_is(k, NO_MODIFIERS, KeyCode::Char('l'))
    ||| key_is(k, NO_MODIFIERS, KeyCode::Home)
    ||| key_is(k, NO_MODIFIERS, KeyCode::Char('0'))
    ||| key_is(k, NO_MODIFIERS, KeyCode::End)
    ||| key_is(k, SHIFT, KeyCode::Char('$'))
}

/// What a key does in normal mode, beyond the mode it leads to and the tab
/// keys, from state `a` to state `b` with outcome `r`.
pub open spec fn normal_effect(a: App, b: App, k: &Key, r: KeyOutcome) -> bool {
    let t = a.tabs@[a.active_tab as int];
    let u = b.tabs@[a.active_tab as int];
    let frame = b.tabs == a.tabs && b.active_tab == a.active_tab && b.file_tree == a.file_tree;
    &&& r is Quit ==> b == a
    &&& key_is(k, CONTROL, KeyCode::Char('w')) ==> b.file_tree == a.file_tree && if a.tabs@.len() == 1 {
        &&& b.tabs@.len() == 1
        &&& is_blank(b.tabs@[0])
        &&& b.active_tab == a.active_tab
    } else {
        &&& b.tabs@ == a.tabs@.remove(a.active_tab as int)
        &&& b.active_tab == if a.active_tab < b.tabs@.len() {
            a.active_tab as int
        } else {
            b.tabs@.len() - 1
        }
    }
    &&& key_is(k, CONTROL, KeyCode::Char('t')) ==> b.file_tree == a.file_tree && b.active_tab
        == a.active_tab + 1 && exists|t: Tab| is_blank(t) && b.tabs@ == a.tabs@.insert(a.active_tab + 1, t)
    &&& key_is(k, CONTROL, KeyCode::Char('b')) ==> frame && b.status_msg == a.status_msg
        && b.active_pane == a.active_pane
    &&& key_is(k, CONTROL, KeyCode::Char('e')) ==> frame && b.status_msg == a.status_msg
        && b.active_pane == if a.sidebar_visible {
        Pane::Sidebar
    } else {
        a.active_pane
    }
    &&& (k.modifiers == ALT && (k.code matches KeyCode::Char(c) && '0' <= c <= '9')) ==> {
        &&& b.tabs == a.tabs
        &&& b.file_tree == a.file_tree
        &&& b.status_msg@ == match k.code {
            KeyCode::Char(c) => if 0 <= digit_tab(c) < a.tabs@.len() {
                status_for(path_view(a.tabs@[digit_tab(c)].path))
            } else {
                a.status_msg@
            },
            _ => a.status_msg@,
        }
    }
    &&& key_is(k, CONTROL, KeyCode::Char('f')) ==> {
        &&& b.active_tab == a.active_tab
        &&& b.file_tree == a.file_tree
        &&& b.tabs@.len() == a.tabs@.len()
        &&& forall|i: int| 0 <= i < a.tabs@.len() && i != a.active_tab ==> b.tabs@[i] == a.tabs@[i]
        &&& u.path == t.path
        &&& u.dirty == t.dirty
        &&& u.in_file_search.query@.len() == 0
        &&& u.in_file_search.matches@.len() == 0
        &&& u.in_file_search.current == 0
        &&& editor_text(u.editor) == editor_text(t.editor)
        &&& editor_marks(u.editor) is None
    }
    &&& key_is(k, CONTROL, KeyCode::Char('p')) ==> {
        &&& frame
        &&& b.file_open.query == a.file_open.query
        &&& b.file_open.selected == 0
        &&& string_views(b.file_open.results@) == open_candidates(
            string_views(b.file_open.all_files@),
            a.file_open.query@,
        )
        &&& exists|l: Seq<EntryView>|
            walked_from(a.vault_path@, l) && string_views(b.file_open.all_files@) == file_paths(l)
    }
    &&& key_is(k, CONTROL, KeyCode::Char('g')) ==> {
        &&& frame
        &&& b.global_search.query@.len() == 0
        &&& b.global_search.results@.len() == 0
        &&& b.global_search.selected == 0
        &&& !b.global_search.dirty
        &&& b.global_search.last_typed is None
    }
    &&& is_motion_key(k) ==> only_active_tab_changed(a, b) && only_view_moved(t, u)
    &&& (key_is(k, NO_MODIFIERS, KeyCode::Down) || key_is(k, NO_MODIFIERS, KeyCode::Char('j')))
        ==> editor_cursor(u.editor) >= editor_cursor(t.editor)
    &&& (key_is(k, NO_MODIFIERS, KeyCode::Up) || key_is(k, NO_MODIFIERS, KeyCode::Char('k')))
        ==> editor_cursor(u.editor) <= editor_cursor(t.editor)
    &&& (key_is(k, NO_MODIFIERS, KeyCode::Home) || key_is(k, NO_MODIFIERS, KeyCode::Char('0'))
        || key_is(k, NO_MODIFIERS, KeyCode::End) || key_is(k, SHIFT, KeyCode::Char('$')))
        ==> editor_cursor(u.editor) == editor_cursor(t.editor)
    &&& (key_is(k, NO_MODIFIERS, KeyCode::PageDown) || key_is(k, NO_MODIFIERS, KeyCode::PageUp))
        ==> only_active_tab_changed(a, b) && only_view_moved(t, u) && editor_cursor(u.editor)
        == editor_cursor(t.editor)
    &&& key_is(k, NO_MODIFIERS, KeyCode::PageDown) ==> (editor_offset(u.editor) == editor_offset(
        t.editor,
    ) || editor_offset(u.editor) == editor_offset(t.editor) + 1)
    &&& key_is(k, NO_MODIFIERS, KeyCode::PageUp) ==> editor_offset(u.editor) == if editor_offset(
        t.editor,
    ) > 0 {
        editor_offset(t.editor) - 1
    } else {
        0
    }
    &&& key_is(k, NO_MODIFIERS, KeyCode::Char('g')) ==> only_active_tab_changed(a, b)
        && only_view_moved(t, u) && editor_cursor(u.editor) == 0
    &&& key_is(k, SHIFT, KeyCode::Char('G')) ==> only_active_tab_changed(a, b) && only_view_moved(
        t,
        u,
    ) && editor_cursor(u.editor) == editor_text(t.editor).len()
    &&& key_is(k, NO_MODIFIERS, KeyCode::Char('n')) ==> only_active_tab_changed(a, b) && stepped(
        t,
        u,
        true,
    )
    &&& key_is(k, SHIFT, KeyCode::Char('N')) ==> only_active_tab_changed(a, b) && stepped(
        t,
        u,
        false,
    )
    &&& (key_is(k, NO_MODIFIERS, KeyCode::Char('e')) || key_is(k, NO_MODIFIERS, KeyCode::Char('i'))
        || key_is(k, NO_MODIFIERS, KeyCode::Enter)) ==> frame
        && b.status_msg@ == "-- INSERT -- Esc=normal  Ctrl+S=save"@
}

/// What a key does in the sidebar, from state `a` to state `b` with outcome `r`.
pub open spec fn sidebar_effect(a: App, b: App, k: &Key, r: KeyOutcome) -> bool {
    let ft = a.file_tree;
    let sel = ft.selected as int;
    &&& b.status_msg == a.status_msg
    &&& b.file_tree.root == ft.root
    &&& (key_is(k, NO_MODIFIERS, KeyCode::Esc) || key_is(k, CONTROL, KeyCode::Char('b')))
        ==> b.active_pane == Pane::Editor && b.file_tree == ft
    &&& (key_is(k, NO_MODIFIERS, KeyCode::Down) || key_is(k, NO_MODIFIERS, KeyCode::Char('j')))
        ==> b.file_tree.flat == ft.flat && b.file_tree.selected == step_down(sel, ft.flat@.len() as int)
    &&& (key_is(k, NO_MODIFIERS, KeyCode::Up) || key_is(k, NO_MODIFIERS, KeyCode::Char('k')))
        ==> b.file_tree.flat == ft.flat && b.file_tree.selected == step_up(sel)
    &&& r matches KeyOutcome::Open { path, then } ==> {
        &&& sel < ft.flat@.len()
        &&& path@ == ft.flat@[sel].path@
        &&& then == AfterOpen::FocusEditor
        &&& b.file_tree == ft
    }
    &&& (is_open_key(k) && !(r is Open)) || key_is(k, NO_MODIFIERS, KeyCode::Char(' ')) ==> {
        &&& b.file_tree.selected == ft.selected
        &&& toggled(ft.nodes(), sel, b.file_tree.nodes())
    }
    &&& (key_is(k, NO_MODIFIERS, KeyCode::Char('h')) || key_is(k, NO_MODIFIERS, KeyCode::Left))
        ==> left_step(ft.nodes(), sel, b.file_tree.nodes(), b.file_tree.selected as int)
}

/// What a key does while typing the in-file search, from state `a` to state `b`.
pub open spec fn find_effect(a: App, b: App, k: &Key) -> bool {
    let t = a.tabs@[a.active_tab as int];
    let u = b.tabs@[a.active_tab as int];
    &&& b.tabs@.len() == a.tabs@.len()
    &&& forall|i: int| 0 <= i < a.tabs@.len() && i != a.active_tab ==> b.tabs@[i] == a.tabs@[i]
    &&& key_is(k, NO_MODIFIERS, KeyCode::Esc) ==> {
        &&& u.path == t.path
        &&& u.dirty == t.dirty
        &&& u.in_file_search == t.in_file_search
        &&& editor_text(u.editor) == editor_text(t.editor)
        &&& editor_marks(u.editor) is None
    }
    &&& key_is(k, NO_MODIFIERS, KeyCode::Enter) ==> stepped(t, u, true)
    &&& key_is(k, NO_MODIFIERS, KeyCode::Backspace) ==> searched(t, u, popped(t.in_file_search.query@))
    &&& (k.modifiers == NO_MODIFIERS && (k.code matches KeyCode::Char(c))) ==> match k.code {
        KeyCode::Char(c) => searched(t, u, t.in_file_search.query@.push(c)) && cursor_at_hit(
            editor_text(t.editor),
            u,
        ),
        _ => true,
    }
}

/// What a key does in the open-file dialog, from state `a` to state `b` with outcome `r`.
pub open spec fn open_dialog_effect(a: App, b: App, k: &Key, r: KeyOutcome) -> bool {
    let f = a.file_open;
    &&& b.file_open.all_files == f.all_files
    &&& key_is(k, NO_MODIFIERS, KeyCode::Enter) ==> (r is Open) == (f.selected < f.results@.len())
    &&& r matches KeyOutcome::Open { path, then } ==> f.selected < f.results@.len() && path@
        == f.results@[f.selected as int]@ && then == AfterOpen::Normal
    &&& (key_is(k, NO_MODIFIERS, KeyCode::Down) || key_is(k, CONTROL, KeyCode::Char('j')))
        ==> b.file_open.selected == step_down(f.selected as int, f.results@.len() as int)
        && b.file_open.results == f.results
    &&& (key_is(k, NO_MODIFIERS, KeyCode::Up) || key_is(k, CONTROL, KeyCode::Char('k')))
        ==> b.file_open.selected == step_up(f.selected as int) && b.file_open.results == f.results
    &&& key_is(k, NO_MODIFIERS, KeyCode::Backspace) ==> {
        &&& b.file_open.query@ == popped(f.query@)
        &&& string_views(b.file_open.results@) == open_candidates(string_views(f.all_files@), popped(f.query@))
        &&& b.file_open.selected == 0
    }
    &&& (k.modifiers == NO_MODIFIERS && (k.code matches KeyCode::Char(c))) ==> match k.code {
        KeyCode::Char(c) => {
            &&& b.file_open.query@ == f.query@.push(c)
            &&& string_views(b.file_open.results@) == open_candidates(
                string_views(f.all_files@),
                f.query@.push(c),
            )
            &&& b.file_open.selected == 0
        },
        _ => true,
    }
}

/// What a key does in the vault search, from state `a` to state `b` with outcome `r`.
pub open spec fn vault_search_effect(a: App, b: App, k: &Key, r: KeyOutcome) -> bool {
    let g = a.global_search;
    &&& key_is(k, NO_MODIFIERS, KeyCode::Enter) ==> (r is Open) == (g.selected < g.results@.len())
    &&& r matches KeyOutcome::Open { path, then } ==> g.selected < g.results@.len() && path@
        == g.results@[g.selected as int].path@ && then == AfterOpen::JumpToLine(
        g.results@[g.selected as int].line_no,
    )
    &&& (key_is(k, NO_MODIFIERS, KeyCode::Down) || key_is(k, CONTROL, KeyCode::Char('j')))
        ==> b.global_search.selected == step_down(g.selected as int, g.results@.len() as int)
        && b.global_search.results == g.results
    &&& (key_is(k, NO_MODIFIERS, KeyCode::Up) || key_is(k, CONTROL, KeyCode::Char('k')))
        ==> b.global_search.selected == step_up(g.selected as int) && b.global_search.results == g.results
    &&& key_is(k, NO_MODIFIERS, KeyCode::Backspace) ==> {
        &&& b.global_search.query@ == popped(g.query@)
        &&& b.global_search.dirty
        &&& b.global_search.last_typed is Some
        &&& b.global_search.results == g.results
    }
    &&& (k.modifiers == NO_MODIFIERS && (k.code matches KeyCode::Char(c))) ==> match k.code {
        KeyCode::Char(c) => {
            &&& b.global_search.query@ == g.query@.push(c)
            &&& b.global_search.dirty
            &&& b.global_search.last_typed is Some
            &&& b.global_search.results == g.results
        },
        _ => true,
    }
}

/// Ctrl+W in normal mode closes the active tab: with several tabs, the tabs
/// before it stay where they were, those after it move up by one, and no
/// other tab is lost; the active tab is then the one that followed, or the
/// new last one.
pub proof fn lemma_ctrl_w_closes_active(a: App, b: App, k: &Key, r: KeyOutcome)
    requires
        a.wf(),
        a.tabs@.len() > 1,
        key_is(k, CONTROL, KeyCode::Char('w')),
        normal_effect(a, b, k, r),
    ensures
        b.tabs@.len() == a.tabs@.len() - 1,
        forall|i: int| 0 <= i < a.active_tab ==> b.tabs@[i] == a.tabs@[i],
        forall|i: int| a.active_tab <= i < b.tabs@.len() ==> b.tabs@[i] == a.tabs@[i + 1],
        b.active_tab == if a.active_tab + 1 < a.tabs@.len() {
            a.active_tab as int
        } else {
            a.tabs@.len() - 2
        },
{
}

/// Ctrl+T in normal mode opens an empty tab right after the active one and
/// makes it active; every other tab keeps its order.
pub proof fn lemma_ctrl_t_opens_after_active(a: App, b: App, k: &Key, r: KeyOutcome)
    requires
        a.wf(),
        key_is(k, CONTROL, KeyCode::Char('t')),
        normal_effect(a, b, k, r),
    ensures
        b.tabs@.len() == a.tabs@.len() + 1,
        b.active_tab == a.active_tab + 1,
        is_blank(b.tabs@[b.active_tab as int]),
        forall|i: int| 0 <= i <= a.active_tab ==> b.tabs@[i] == a.tabs@[i],
        forall|i: int| a.active_tab < i < a.tabs@.len() ==> b.tabs@[i + 1] == a.tabs@[i],
{
}

/// A key of the sidebar that opens the selected entry.
pub open spec fn is_open_key(k: &Key) -> bool {
    ||| key_is(k, NO_MODIFIERS, KeyCode::Enter)
    ||| key_is(k, NO_MODIFIERS, KeyCode::Char('l'))
    ||| key_is(k, NO_MODIFIERS, KeyCode::Right)
}

/// Keeping the invariant when the active tab is replaced by one whose search is valid.
proof fn lemma_inv_update(app_tabs: Seq<Tab>, a: int, t: Tab)
    requires
        0 <= a < app_tabs.len(),
        forall|i: int|
            0 <= i < app_tabs.len() ==> (#[trigger] app_tabs[i]).in_file_search.wf() && editor_ok(
                app_tabs[i].editor,
            ),
        t.in_file_search.wf(),
        editor_ok(t.editor),
    ensures
        forall|i: int|
            0 <= i < app_tabs.update(a, t).len() ==> (#[trigger] app_tabs.update(a, t)[i]).in_file_search.wf()
                && editor_ok(app_tabs.update(a, t)[i].editor),
{
}

/// Keys in the sidebar: move, open, fold, or leave it.
fn handle_key_sidebar(app: &mut App, key: &Key) -> (r: KeyOutcome)
    requires
        old(app).inv(),
        old(app).mode == Mode::SidePanel,
    ensures
        final(app).inv(),
        final(app).mode == mode_after(old(app).mode, key, old(app).sidebar_visible, false),
        r is Continue || r is Open,
        r is Open ==> is_open_key(key),
        key_is(key, CONTROL, KeyCode::Char('b')) ==> final(app).sidebar_visible
            == !old(app).sidebar_visible,
        !key_is(key, CONTROL, KeyCode::Char('b')) ==> final(app).sidebar_visible
            == old(app).sidebar_visible,
        final(app).tabs == old(app).tabs,
        final(app).active_tab == old(app).active_tab,
        sidebar_effect(*old(app), *final(app), key, r),
{
    if key_is_exec(key, NO_MODIFIERS, KeyCode::Esc) {
        app.mode = Mode::Normal;
        app.active_pane = Pane::Editor;
    } else if key_is_exec(key, CONTROL, KeyCode::Char('b')) {
        app.sidebar_visible = !app.sidebar_visible;
        app.mode = Mode::Normal;
        app.active_pane = Pane::Editor;
    } else if key_is_exec(key, NO_MODIFIERS, KeyCode::Down) || key_is_exec(
        key,
        NO_MODIFIERS,
        KeyCode::Char('j'),
    ) {
        app.file_tree.move_down();
    } else if key_is_exec(key, NO_MODIFIERS, KeyCode::Up) || key_is_exec(
        key,
        NO_MODIFIERS,
        KeyCode::Char('k'),
    ) {
        app.file_tree.move_up();
    } else if key_is_exec(key, NO_MODIFIERS, KeyCode::Enter) || key_is_exec(
        key,
        NO_MODIFIERS,
        KeyCode::Char('l'),
    ) || key_is_exec(key, NO_MODIFIERS, KeyCode::Right) {
        let target = match app.file_tree.selected_path() {
            Some(path) => {
                if path_is_dir(path.as_str()) {
                    None
                } else {
                    Some(path.clone())
                }
            },
            None => {
                return KeyOutcome::Continue;
            },
        };
        match target {
            Some(p) => {
                return KeyOutcome::Open { path: p, then: AfterOpen::FocusEditor };
            },
            None => {
                toggle_selected(app);
            },
        }
    } else if key_is_exec(key, NO_MODIFIERS, KeyCode::Char('h')) || key_is_exec(
        key,
        NO_MODIFIERS,
        KeyCode::Left,
    ) {
        app.file_tree.collapse_or_parent();
    } else if key_is_exec(key, NO_MODIFIERS, KeyCode::Char(' ')) {
        toggle_selected(app);
    }
    KeyOutcome::Continue
}

/// Expands or collapses the selected directory of the sidebar.
fn toggle_selected(app: &mut App)
    requires
        old(app).inv(),
    ensures
        final(app).inv(),
        final(app).mode == old(app).mode,
        final(app).sidebar_visible == old(app).sidebar_visible,
        final(app).tabs == old(app).tabs,
        final(app).active_tab == old(app).active_tab,
        final(app).status_msg == old(app).status_msg,
        final(app).active_pane == old(app).active_pane,
        final(app).file_tree.root == old(app).file_tree.root,
        final(app).file_tree.selected == old(app).file_tree.selected,
        toggled(
            old(app).file_tree.nodes(),
            old(app).file_tree.selected as int,
            final(app).file_tree.nodes(),
        ),
{
    let n = app.file_tree.flat.len();
    proof {
        let sel = app.file_tree.selected as int;
        if sel < n {
            lemma_depth_bounded(app.file_tree.nodes(), sel);
            assert(app.file_tree.nodes()[sel] == app.file_tree.flat@[sel].view_node());
        }
    }
    app.file_tree.toggle_expand();
}

/// Whether the key is `code` with exactly the modifiers `mods`.
pub fn key_is_exec(k: &Key, mods: u8, code: KeyCode) -> (r: bool)
    ensures
        r == key_is(k, mods, code),
{
    k.modifiers == mods && k.code == code
}

/// Keys while typing the in-file search: edit the query, jump, or leave.
fn handle_key_in_file_search(app: &mut App, key: &Key)
    requires
        old(app).inv(),
        old(app).mode == Mode::InFileSearch,
    ensures
        final(app).inv(),
        final(app).mode == mode_after(old(app).mode, key, old(app).sidebar_visible, false),
        final(app).sidebar_visible == old(app).sidebar_visible,
        final(app).tabs@.len() == old(app).tabs@.len(),
        final(app).active_tab == old(app).active_tab,
        find_effect(*old(app), *final(app), key),
{
    if key_is_exec(key, NO_MODIFIERS, KeyCode::Esc) {
        app.mode = Mode::Normal;
        let tab = app.tab_mut();
        editor_remove_marks(&mut tab.editor);
    } else if key_is_exec(key, NO_MODIFIERS, KeyCode::Enter) {
        app.step_search(true);
        app.mode = Mode::Normal;
    } else if key_is_exec(key, NO_MODIFIERS, KeyCode::Backspace) {
        let tab = app.tab_mut();
        let ghost q = tab.in_file_search.query@;
        let _ = tab.in_file_search.query.pop();
        assert(tab.in_file_search.query@ =~= popped(q));
        app.research(false);
    } else if key.modifiers == NO_MODIFIERS {
        match key.code {
            KeyCode::Char(c) => {
                let tab = app.tab_mut();
                tab.in_file_search.query.push(c);
                app.research(true);
            },
            _ => {},
        }
    }
}

/// Keys in the open-file dialog: edit the query, move, open, or leave.
fn handle_key_file_open(app: &mut App, key: &Key) -> (r: KeyOutcome)
    requires
        old(app).inv(),
        old(app).mode == Mode::FileOpen,
    ensures
        final(app).inv(),
        final(app).mode == mode_after(
            old(app).mode,
            key,
            old(app).sidebar_visible,
            old(app).file_open.selected < old(app).file_open.results@.len(),
        ),
        r is Continue || r is Open,
        r matches KeyOutcome::Open { path, then } ==> key_is(key, NO_MODIFIERS, KeyCode::Enter)
            && then == AfterOpen::Normal && old(app).file_open.selected
            < old(app).file_open.results@.len() && path@ == old(app).file_open.results@[old(app).file_open.selected as int]@,
        final(app).sidebar_visible == old(app).sidebar_visible,
        final(app).tabs == old(app).tabs,
        final(app).active_tab == old(app).active_tab,
        open_dialog_effect(*old(app), *final(app), key, r),
{
    if key_is_exec(key, NO_MODIFIERS, KeyCode::Esc) {
        app.mode = Mode::Normal;
    } else if key_is_exec(key, NO_MODIFIERS, KeyCode::Enter) {
        if app.file_open.selected < app.file_open.results.len() {
            let path = app.file_open.results[app.file_open.selected].clone();
            return KeyOutcome::Open { path, then: AfterOpen::Normal };
        }
        app.mode = Mode::Normal;
    } else if key_is_exec(key, NO_MODIFIERS, KeyCode::Down) || key_is_exec(
        key,
        CONTROL,
        KeyCode::Char('j'),
    ) {
        if app.file_open.selected < app.file_open.results.len() && app.file_open.selected + 1
            < app.file_open.results.len() {
            app.file_open.selected += 1;
        }
    } else if key_is_exec(key, NO_MODIFIERS, KeyCode::Up) || key_is_exec(
        key,
        CONTROL,
        KeyCode::Char('k'),
    ) {
        if app.file_open.selected > 0 {
            app.file_open.selected -= 1;
        }
    } else if key_is_exec(key, NO_MODIFIERS, KeyCode::Backspace) {
        let ghost q = app.file_open.query@;
        let _ = app.file_open.query.pop();
        assert(app.file_open.query@ =~= popped(q));
        app.file_open.filter();
    } else if key.modifiers == NO_MODIFIERS {
        match key.code {
            KeyCode::Char(c) => {
                app.file_open.query.push(c);
                app.file_open.filter();
            },
            _ => {},
        }
    }
    KeyOutcome::Continue
}

/// Keys in the vault search: edit the query, move, jump to a hit, or leave.
fn handle_key_global_search(app: &mut App, key: &Key) -> (r: KeyOutcome)
    requires
        old(app).inv(),
        old(app).mode == Mode::GlobalSearch,
    ensures
        final(app).inv(),
        final(app).mode == mode_after(old(app).mode, key, old(app).sidebar_visible, false),
        r is Continue || r is Open,
        r matches KeyOutcome::Open { path, then } ==> key_is(key, NO_MODIFIERS, KeyCode::Enter)
            && old(app).global_search.selected < old(app).global_search.results@.len() && {
            let hit = old(app).global_search.results@[old(app).global_search.selected as int];
            path@ == hit.path@ && then == AfterOpen::JumpToLine(hit.line_no)
        },
        final(app).sidebar_visible == old(app).sidebar_visible,
        final(app).tabs == old(app).tabs,
        final(app).active_tab == old(app).active_tab,
        vault_search_effect(*old(app), *final(app), key, r),
{
    if key_is_exec(key, NO_MODIFIERS, KeyCode::Esc) {
        app.mode = Mode::Normal;
    } else if key_is_exec(key, NO_MODIFIERS, KeyCode::Enter) {
        match app.global_search.selected_result() {
            Some((path, line_no, _)) => {
                let p = path.clone();
                return KeyOutcome::Open { path: p, then: AfterOpen::JumpToLine(line_no) };
            },
            None => {},
        }
    } else if key_is_exec(key, NO_MODIFIERS, KeyCode::Down) || key_is_exec(
        key,
        CONTROL,
        KeyCode::Char('j'),
    ) {
        app.global_search.move_down();
    } else if key_is_exec(key, NO_MODIFIERS, KeyCode::Up) || key_is_exec(
        key,
        CONTROL,
        KeyCode::Char('k'),
    ) {
        app.global_search.move_up();
    } else if key_is_exec(key, NO_MODIFIERS, KeyCode::Backspace) {
        let ghost q = app.global_search.query@;
        let _ = app.global_search.query.pop();
        assert(app.global_search.query@ =~= popped(q));
        app.global_search.mark_dirty();
    } else if key.modifiers == NO_MODIFIERS {
        match key.code {
            KeyCode::Char(c) => {
                app.global_search.query.push(c);
                app.global_search.mark_dirty();
            },
            _ => {},
        }
    }
    KeyOutcome::Continue
}

/// The tab that Alt with digit `c` jumps to: `'1'` the first, `'9'` the
/// ninth; `'0'` names no tab.
pub open spec fn digit_tab(c: char) -> int {
    if c == '0' {
        usize::MAX as int
    } else {
        (c as u32) - ('1' as u32)
    }
}

/// For Alt with a digit key: the active tab becomes the tab the digit names,
/// where there is one, and stays otherwise.
pub open spec fn digit_jump(code: KeyCode, before: int, len: int, after: int) -> bool {
    match code {
        KeyCode::Char(c) => '0' <= c <= '9' ==> after == if 0 <= digit_tab(c) < len {
            digit_tab(c)
        } else {
            before
        },
        _ => true,
    }
}

/// Handles one key press in the current mode, and says what is left for the
/// caller to do: quit, save, or open a file.
pub fn handle_key(app: &mut App, key: &Key) -> (r: KeyOutcome)
    requires
        old(app).inv(),
    ensures
        final(app).inv(),
        (r is Quit) == (old(app).mode == Mode::Normal && key_is(key, CONTROL, KeyCode::Char('q'))),
        (r is Save) == ((old(app).mode == Mode::Normal || old(app).mode == Mode::Insert) && key_is(
            key,
            CONTROL,
            KeyCode::Char('s'),
        )),
        r is Open ==> old(app).mode == Mode::SidePanel || old(app).mode == Mode::FileOpen
            || old(app).mode == Mode::GlobalSearch,
        !(r is Open) ==> final(app).mode == mode_after(
            old(app).mode,
            key,
            old(app).sidebar_visible,
            old(app).file_open.selected < old(app).file_open.results@.len(),
        ),
        (old(app).mode == Mode::Normal || old(app).mode == Mode::SidePanel) && key_is(
            key,
            CONTROL,
            KeyCode::Char('b'),
        ) ==> final(app).sidebar_visible == !old(app).sidebar_visible,
        old(app).mode == Mode::Normal && key_is(key, CONTROL, KeyCode::Char('t')) ==> final(app).tabs@.len() == old(app).tabs@.len() + 1 && final(app).active_tab == old(app).active_tab
            + 1,
        old(app).mode == Mode::Normal && (key_is(key, ALT, KeyCode::Right) || key_is(
            key,
            ALT,
            KeyCode::Char('l'),
        )) ==> final(app).active_tab == step_forward(old(app).active_tab as int, old(app).tabs@.len() as int),
        old(app).mode == Mode::Normal && (key_is(key, ALT, KeyCode::Left) || key_is(
            key,
            ALT,
            KeyCode::Char('h'),
        )) ==> final(app).active_tab == step_back(old(app).active_tab as int, old(app).tabs@.len() as int),
        old(app).mode == Mode::Normal && key.modifiers == ALT ==> digit_jump(
            key.code,
            old(app).active_tab as int,
            old(app).tabs@.len() as int,
            final(app).active_tab as int,
        ),
        old(app).mode == Mode::Insert && key.code != KeyCode::Esc && !key_is(
            key,
            CONTROL,
            KeyCode::Char('s'),
        ) ==> final(app).tabs@[final(app).active_tab as int].dirty,
        old(app).mode == Mode::Normal ==> normal_effect(*old(app), *final(app), key, r),
        old(app).mode == Mode::SidePanel ==> sidebar_effect(*old(app), *final(app), key, r),
        old(app).mode == Mode::InFileSearch ==> find_effect(*old(app), *final(app), key),
        old(app).mode == Mode::FileOpen ==> open_dialog_effect(*old(app), *final(app), key, r),
        old(app).mode == Mode::GlobalSearch ==> vault_search_effect(*old(app), *final(app), key, r),
{
    let area = app.editor_area;
    let tab_count = app.tabs.len();
    assert(app.active_tab < tab_count);
    match app.mode {
        Mode::InFileSearch => {
            handle_key_in_file_search(app, key);
            return KeyOutcome::Continue;
        },
        Mode::FileOpen => {
            return handle_key_file_open(app, key);
        },
        Mode::GlobalSearch => {
            return handle_key_global_search(app, key);
        },
        Mode::SidePanel => {
            return handle_key_sidebar(app, key);
        },
        Mode::Insert => {
            if key.code == KeyCode::Esc {
                app.mode = Mode::Normal;
                app.update_status();
                return KeyOutcome::Continue;
            }
            if key_is_exec(key, CONTROL, KeyCode::Char('s')) {
                return KeyOutcome::Save;
            }
            let tab = app.tab_mut();
            editor_input(&mut tab.editor, key.raw, area);
            tab.dirty = true;
            return KeyOutcome::Continue;
        },
        Mode::Normal => {},
    }
    if key_is_exec(key, CONTROL, KeyCode::Char('q')) {
        return KeyOutcome::Quit;
    } else if key_is_exec(key, CONTROL, KeyCode::Char('t')) {
        app.new_tab();
    } else if key_is_exec(key, CONTROL, KeyCode::Char('w')) {
        app.close_tab();
    } else if key_is_exec(key, ALT, KeyCode::Right) || key_is_exec(key, ALT, KeyCode::Char('l')) {
        app.next_tab();
    } else if key_is_exec(key, ALT, KeyCode::Left) || key_is_exec(key, ALT, KeyCode::Char('h')) {
        app.prev_tab();
    } else if key.modifiers == ALT && is_digit_key(key.code) {
        match key.code {
            KeyCode::Char(c) => {
                if c != '0' {
                    let n = ((c as u32) - ('1' as u32)) as usize;
                    app.goto_tab(n);
                }
            },
            _ => {},
        }
    } else if key_is_exec(key, CONTROL, KeyCode::Char('b')) {
        app.sidebar_visible = !app.sidebar_visible;
    } else if key_is_exec(key, CONTROL, KeyCode::Char('e')) {
        if app.sidebar_visible {
            app.mode = Mode::SidePanel;
            app.active_pane = Pane::Sidebar;
        }
    } else if key_is_exec(key, NO_MODIFIERS, KeyCode::Char('e')) || key_is_exec(
        key,
        NO_MODIFIERS,
        KeyCode::Char('i'),
    ) || key_is_exec(key, NO_MODIFIERS, KeyCode::Enter) {
        app.mode = Mode::Insert;
        app.status_msg = String::from_str("-- INSERT -- Esc=normal  Ctrl+S=save");
    } else if key_is_exec(key, CONTROL, KeyCode::Char('s')) {
        return KeyOutcome::Save;
    } else if key_is_exec(key, CONTROL, KeyCode::Char('f')) {
        app.mode = Mode::InFileSearch;
        let tab = app.tab_mut();
        tab.in_file_search = SearchState::new();
        editor_remove_marks(&mut tab.editor);
    } else if key_is_exec(key, CONTROL, KeyCode::Char('p')) {
        app.mode = Mode::FileOpen;
        app.file_open.all_files = collect_all_files(app.vault_path.as_str());
        app.file_open.filter();
    } else if key_is_exec(key, CONTROL, KeyCode::Char('g')) {
        app.mode = Mode::GlobalSearch;
        app.global_search = GlobalSearch::new();
    } else if key_is_exec(key, NO_MODIFIERS, KeyCode::Down) || key_is_exec(
        key,
        NO_MODIFIERS,
        KeyCode::Char('j'),
    ) {
        move_cursor(app, Motion::Down);
    } else if key_is_exec(key, NO_MODIFIERS, KeyCode::Up) || key_is_exec(
        key,
        NO_MODIFIERS,
        KeyCode::Char('k'),
    ) {
        move_cursor(app, Motion::Up);
    } else if key_is_exec(key, NO_MODIFIERS, KeyCode::Left) || key_is_exec(
        key,
        NO_MODIFIERS,
        KeyCode::Char('h'),
    ) {
        move_cursor(app, Motion::Left);
    } else if key_is_exec(key, NO_MODIFIERS, KeyCode::Right) || key_is_exec(
        key,
        NO_MODIFIERS,
        KeyCode::Char('l'),
    ) {
        move_cursor(app, Motion::Right);
    } else if key_is_exec(key, NO_MODIFIERS, KeyCode::PageDown) {
        let height = app.editor_area.height as usize;
        let tab = app.tab_mut();
        editor_scroll_down(&mut tab.editor, height);
    } else if key_is_exec(key, NO_MODIFIERS, KeyCode::PageUp) {
        let tab = app.tab_mut();
        editor_scroll_up(&mut tab.editor);
    } else if key_is_exec(key, NO_MODIFIERS, KeyCode::Home) || key_is_exec(
        key,
        NO_MODIFIERS,
        KeyCode::Char('0'),
    ) {
        move_cursor(app, Motion::Home);
    } else if key_is_exec(key, NO_MODIFIERS, KeyCode::End) || key_is_exec(
        key,
        SHIFT,
        KeyCode::Char('$'),
    ) {
        move_cursor(app, Motion::End);
    } else if key_is_exec(key, NO_MODIFIERS, KeyCode::Char('g')) {
        let tab = app.tab_mut();
        editor_set_cursor(&mut tab.editor, 0);
    } else if key_is_exec(key, SHIFT, KeyCode::Char('G')) {
        let tab = app.tab_mut();
        let content = editor_content(&tab.editor);
        let len = chars_of(content.as_str()).len();
        editor_set_cursor(&mut tab.editor, len);
    } else if key_is_exec(key, NO_MODIFIERS, KeyCode::Char('n')) {
        app.step_search(true);
    } else if key_is_exec(key, SHIFT, KeyCode::Char('N')) {
        app.step_search(false);
    }
    KeyOutcome::Continue
}

/// Whether the key is an ASCII digit.
fn is_digit_key(code: KeyCode) -> (r: bool)
    ensures
        r == (code matches KeyCode::Char(c) && '0' <= c <= '9'),
{
    match code {
        KeyCode::Char(c) => '0' <= c && c <= '9',
        _ => false,
    }
}

/// Moves the active tab's cursor.
fn move_cursor(app: &mut App, m: Motion)
    requires
        old(app).inv(),
    ensures
        final(app).inv(),
        final(app).only_tabs_changed(*old(app)),
        final(app).mode == old(app).mode,
        final(app).sidebar_visible == old(app).sidebar_visible,
        final(app).tabs@.len() == old(app).tabs@.len(),
        final(app).active_tab == old(app).active_tab,
        only_active_tab_changed(*old(app), *final(app)),
        only_view_moved(old(app).tabs@[old(app).active_tab as int], final(app).tabs@[old(app).active_tab as int]),
        ({
            let (c0, c1) = (
                editor_cursor(old(app).tabs@[old(app).active_tab as int].editor),
                editor_cursor(final(app).tabs@[old(app).active_tab as int].editor),
            );
            &&& m == Motion::Up ==> c1 <= c0
            &&& m == Motion::Down ==> c1 >= c0
            &&& (m == Motion::Home || m == Motion::End) ==> c1 == c0
        }),
{
    let area = app.editor_area;
    let tab = app.tab_mut();
    editor_move(&mut tab.editor, m, area);
}

/// Passes a mouse event at (`column`, `row`) to the editor when it falls inside the editor's area.
pub fn handle_mouse(app: &mut App, column: u16, row: u16, raw: MouseEvent)
    requires
        old(app).inv(),
    ensures
        final(app).inv(),
        final(app).only_tabs_changed(*old(app)),
        final(app).tabs@.len() == old(app).tabs@.len(),
        forall|i: int|
            0 <= i < old(app).tabs@.len() && i != old(app).active_tab ==> final(app).tabs@[i]
                == old(app).tabs@[i],
        ({
            let (t, u) = (old(app).tabs@[old(app).active_tab as int], final(app).tabs@[old(app).active_tab as int]);
            &&& u.path == t.path
            &&& u.dirty == t.dirty
            &&& u.in_file_search == t.in_file_search
            &&& editor_text(u.editor) == editor_text(t.editor)
            &&& editor_marks(u.editor) == editor_marks(t.editor)
        }),
        !area_contains(old(app).editor_area, column, row) ==> final(app).tabs == old(app).tabs,
{
    let area = app.editor_area;
    if area.contains(column, row) {
        let tab = app.tab_mut();
        editor_mouse(&mut tab.editor, raw, area);
    }
}

} // verus!
