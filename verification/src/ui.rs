use vstd::prelude::*;

use crate::app::{name_or_unknown, App, Area, Mode, Pane};
use crate::filetree::NodeView;
use crate::paths::{extension_or_empty, file_icon, icon_for_extension, path_components, path_eq, path_file_name};
use crate::search::{GlobalMatch, MAX_GLOBAL_RESULTS};
use crate::tabs::{editor_content, editor_cursor, editor_ok, editor_text, path_key, path_view, Tab};
use ratatui_code_editor::editor::Editor;
use crate::text::{byte_slice, decimal, decimal_of};
use vstd::utf8::{encode_utf8, is_char_boundary};

verus! {

/// The first row shown of a list `visible` rows high so that row `selected` is in view.
pub open spec fn scroll_for(selected: int, visible: int) -> int {
    if selected >= visible {
        selected - visible + 1
    } else {
        0
    }
}

/// The first row shown of a list `visible` rows high so that row `selected` is in view.
pub fn scroll_offset(selected: usize, visible: usize) -> (r: usize)
    requires
        visible > 0 || selected < usize::MAX,
    ensures
        r == scroll_for(selected as int, visible as int),
{
    if selected >= visible {
        selected - visible + 1
    } else {
        0
    }
}

/// How a row of the sidebar is drawn.
#[derive(Debug, Clone, Copy, PartialEq, Eq, Structural)]
pub enum RowStyle {
    /// The selected row.
    Selected,
    /// The file shown in the active tab.
    ActiveFile,
    /// A file open in another tab.
    OpenFile,
    /// A directory.
    Directory,
    /// Any other file.
    File,
}

/// The style of a sidebar row, in order of precedence: selected, shown in
/// the active tab, open in some tab, a directory, any other file.
pub open spec fn row_style_for(selected: bool, active: bool, open: bool, is_dir: bool) -> RowStyle {
    if selected {
        RowStyle::Selected
    } else if active {
        RowStyle::ActiveFile
    } else if open {
        RowStyle::OpenFile
    } else if is_dir {
        RowStyle::Directory
    } else {
        RowStyle::File
    }
}

/// Some tab shows the file at `p`.
pub open spec fn open_in_some_tab(tabs: Seq<Tab>, p: Seq<char>) -> bool {
    exists|i: int| 0 <= i < tabs.len() && path_key(#[trigger] tabs[i].path) == Some(path_components(p))
}

/// The icon before a node's name: an open or closed triangle for directories,
/// the file's own icon for files.
pub open spec fn node_icon_for(n: NodeView) -> Seq<char> {
    if n.2 {
        if n.4 {
            "\u{25be} "@
        } else {
            "\u{25b8} "@
        }
    } else {
        icon_for_extension(extension_or_empty(n.0))
    }
}

/// Whether `tab` shows the file at `p`.
fn shows(tab: &Tab, p: &str) -> (r: bool)
    ensures
        r == (path_key(tab.path) == Some(path_components(p@))),
{
    match &tab.path {
        Some(q) => path_eq(q.as_str(), p),
        None => false,
    }
}

impl App {
    /// The icon and style of row `idx` of the sidebar.
    pub fn sidebar_row(&self, idx: usize) -> (r: (&'static str, RowStyle))
        requires
            idx < self.file_tree.flat@.len(),
            self.active_tab < self.tabs@.len(),
        ensures
            r.0@ == node_icon_for(self.file_tree.nodes()[idx as int]),
            r.1 == row_style_for(
                idx == self.file_tree.selected,
                path_key(self.tabs@[self.active_tab as int].path) == Some(
                    path_components(self.file_tree.flat@[idx as int].path@),
                ),
                open_in_some_tab(self.tabs@, self.file_tree.flat@[idx as int].path@),
                self.file_tree.flat@[idx as int].is_dir,
            ),
    {
        let node = &self.file_tree.flat[idx];
        assert(self.file_tree.nodes()[idx as int] == node.view_node());
        let icon = if node.is_dir {
            if node.expanded {
                "\u{25be} "
            } else {
                "\u{25b8} "
            }
        } else {
            file_icon(node.path.as_str())
        };
        let p = node.path.as_str();
        let mut open = false;
        let mut i: usize = 0;
        while i < self.tabs.len()
            invariant
                i <= self.tabs@.len(),
                p@ == node.path@,
                open == exists|j: int| 0 <= j < i && path_key(#[trigger] self.tabs@[j].path) == Some(
                    path_components(p@),
                ),
            decreases self.tabs@.len() - i,
        {
            if shows(&self.tabs[i], p) {
                open = true;
            }
            i += 1;
        }
        let active = shows(&self.tabs[self.active_tab], p);
        let style = if idx == self.file_tree.selected {
            RowStyle::Selected
        } else if active {
            RowStyle::ActiveFile
        } else if open {
            RowStyle::OpenFile
        } else if node.is_dir {
            RowStyle::Directory
        } else {
            RowStyle::File
        };
        (icon, style)
    }

    /// The title of the editor pane: the file's name with ` [+]` for unsaved
    /// changes, or `[ new tab ]`, padded with a space on each side.
    pub fn editor_title(&self) -> (r: String)
        requires
            self.active_tab < self.tabs@.len(),
        ensures
            r@ == match path_view(self.tabs@[self.active_tab as int].path) {
                None => " [ new tab ] "@,
                Some(p) => " "@ + name_or_unknown(p) + if self.tabs@[self.active_tab as int].dirty {
                    " [+]"@
                } else {
                    ""@
                } + " "@,
            },
    {
        let tab = &self.tabs[self.active_tab];
        match &tab.path {
            None => String::from_str(" [ new tab ] "),
            Some(p) => {
                let mut t = String::from_str(" ");
                let name = match path_file_name(p.as_str()) {
                    Some(n) => n,
                    None => String::from_str("?"),
                };
                t.append(name.as_str());
                if tab.dirty {
                    t.append(" [+]");
                } else {
                    t.append("");
                }
                t.append(" ");
                t
            },
        }
    }

    /// The colour of the editor pane's border.
    pub fn editor_border(&self) -> (r: BorderColor)
        ensures
            r == if self.mode == Mode::Insert {
                BorderColor::Insert
            } else if self.active_pane == Pane::Editor {
                BorderColor::Focused
            } else {
                BorderColor::Unfocused
            },
    {
        if self.mode == Mode::Insert {
            BorderColor::Insert
        } else if self.active_pane == Pane::Editor {
            BorderColor::Focused
        } else {
            BorderColor::Unfocused
        }
    }

    /// The status-line note on the active tab's search: its position among
    /// the hits, as `  [current/total]`, or nothing without a query.
    pub fn match_info(&self) -> (r: String)
        requires
            self.active_tab < self.tabs@.len(),
            self.tabs@[self.active_tab as int].in_file_search.wf(),
        ensures
            ({
                let s = self.tabs@[self.active_tab as int].in_file_search;
                let total = s.matches@.len();
                let cur = if total > 0 { s.current + 1 } else { 0 };
                r@ == if s.query@.len() == 0 {
                    Seq::<char>::empty()
                } else {
                    "  ["@ + decimal_of(cur as nat) + "/"@ + decimal_of(total) + "]"@
                }
            }),
    {
        if self.tabs[self.active_tab].in_file_search.query.as_str().is_empty() {
            return String::new();
        }
        let (cur, total) = self.match_position();
        let mut r = String::from_str("  [");
        r.append(decimal(cur).as_str());
        r.append("/");
        r.append(decimal(total).as_str());
        r.append("]");
        r
    }

    /// The title of the find bar: ` Find [current/total] `.
    pub fn find_title(&self) -> (r: String)
        requires
            self.active_tab < self.tabs@.len(),
            self.tabs@[self.active_tab as int].in_file_search.wf(),
        ensures
            ({
                let s = self.tabs@[self.active_tab as int].in_file_search;
                let total = s.matches@.len();
                let cur = if total > 0 { s.current + 1 } else { 0 };
                r@ == " Find ["@ + decimal_of(cur as nat) + "/"@ + decimal_of(total) + "] "@
            }),
    {
        let (cur, total) = self.match_position();
        let mut r = String::from_str(" Find [");
        r.append(decimal(cur).as_str());
        r.append("/");
        r.append(decimal(total).as_str());
        r.append("] ");
        r
    }

    /// The status-line note on the tabs: `  tab n/m  `, the active one counted from 1.
    pub fn tab_info(&self) -> (r: String)
        requires
            self.active_tab < self.tabs@.len(),
        ensures
            r@ == "  tab "@ + decimal_of((self.active_tab + 1) as nat) + "/"@ + decimal_of(
                self.tabs@.len(),
            ) + "  "@,
    {
        let len = self.tabs.len();
        assert(self.active_tab < len);
        let mut r = String::from_str("  tab ");
        r.append(decimal(self.active_tab + 1).as_str());
        r.append("/");
        r.append(decimal(self.tabs.len()).as_str());
        r.append("  ");
        r
    }

    /// The position of the current hit, counted from 1 (0 when there are no
    /// hits), and the number of hits of the active tab's search.
    pub fn match_position(&self) -> (r: (usize, usize))
        requires
            self.active_tab < self.tabs@.len(),
            self.tabs@[self.active_tab as int].in_file_search.wf(),
        ensures
            r.1 == self.tabs@[self.active_tab as int].in_file_search.matches@.len(),
            r.0 == if r.1 > 0 {
                self.tabs@[self.active_tab as int].in_file_search.current + 1
            } else {
                0
            },
    {
        let s = &self.tabs[self.active_tab].in_file_search;
        let total = s.matches.len();
        let cur = if total > 0 {
            s.current + 1
        } else {
            0
        };
        (cur, total)
    }
}

/// The colour of the editor pane's border.
#[derive(Debug, Clone, Copy, PartialEq, Eq, Structural)]
pub enum BorderColor {
    /// Typing into the editor.
    Insert,
    /// The editor has the focus.
    Focused,
    /// The sidebar has the focus.
    Unfocused,
}

/// The label for a mode in the status line.
pub open spec fn mode_label_for(m: Mode) -> Seq<char> {
    match m {
        Mode::Normal => " NORMAL "@,
        Mode::Insert => " INSERT "@,
        Mode::SidePanel => " TREE   "@,
        Mode::InFileSearch => " FIND   "@,
        Mode::FileOpen => " OPEN   "@,
        Mode::GlobalSearch => " GREP   "@,
    }
}

/// The label for a mode in the status line.
pub fn mode_label(m: Mode) -> (r: &'static str)
    ensures
        r@ == mode_label_for(m),
{
    match m {
        Mode::Normal => " NORMAL ",
        Mode::Insert => " INSERT ",
        Mode::SidePanel => " TREE   ",
        Mode::InFileSearch => " FIND   ",
        Mode::FileOpen => " OPEN   ",
        Mode::GlobalSearch => " GREP   ",
    }
}

/// A `w` by `h` area centred in `area` (its offsets taken from the area's size alone).
pub fn centered(area: Area, w: u16, h: u16) -> (r: Area)
    ensures
        r.x == (if area.width >= w { area.width - w } else { 0 }) / 2,
        r.y == (if area.height >= h { area.height - h } else { 0 }) / 2,
        r.width == w,
        r.height == h,
{
    Area {
        x: area.width.saturating_sub(w) / 2,
        y: area.height.saturating_sub(h) / 2,
        width: w,
        height: h,
    }
}

/// A byte offset clipped to a text `len` bytes long.
pub open spec fn clip(x: int, len: int) -> int {
    if x < len {
        x
    } else {
        len
    }
}

/// Where a hit row of the vault search is cut, as byte offsets into the
/// line: at most 20 bytes before the hit, the hit, and at most 40 bytes after it.
pub open spec fn row_cuts(b: Seq<u8>, col_start: int, col_end: int) -> (int, int, int, int) {
    let lo = clip(col_start, b.len() as int);
    let hi = clip(col_end, b.len() as int);
    (
        if lo > 20 { lo - 20 } else { 0 },
        lo,
        hi,
        if b.len() - hi > 40 { hi + 40 } else { b.len() as int },
    )
}

/// The cuts of a hit row fall in order, between characters of the line.
pub open spec fn row_cuts_fit(m: GlobalMatch) -> bool {
    let b = encode_utf8(m.line_text@);
    let c = row_cuts(b, m.col_start as int, m.col_end as int);
    &&& c.1 <= c.2
    &&& is_char_boundary(b, c.0)
    &&& is_char_boundary(b, c.1)
    &&& is_char_boundary(b, c.2)
    &&& is_char_boundary(b, c.3)
}

/// Whether the hit row of `m` can be cut as `hit_row_parts` cuts it.
pub fn hit_row_cuts_fit(m: &GlobalMatch) -> (r: bool)
    ensures
        r == row_cuts_fit(*m),
        encode_utf8(m.line_text@).len() <= usize::MAX,
{
    let line = m.line_text.as_str();
    let len = line.as_bytes().len();
    let lo = if m.col_start < len {
        m.col_start
    } else {
        len
    };
    let hi = if m.col_end < len {
        m.col_end
    } else {
        len
    };
    let first = if lo > 20 {
        lo - 20
    } else {
        0
    };
    let last = if len - hi > 40 {
        hi + 40
    } else {
        len
    };
    lo <= hi && line.is_char_boundary(first) && line.is_char_boundary(lo) && line.is_char_boundary(hi)
        && line.is_char_boundary(last)
}

/// The text shown for a hit of the vault search: the end of what comes
/// before the hit, the hit, and the start of what follows it. Each cut must
/// fall between two characters of the line.
pub fn hit_row_parts(m: &GlobalMatch) -> (r: (String, String, String))
    requires
        encode_utf8(m.line_text@).len() <= usize::MAX,
        ({
            let b = encode_utf8(m.line_text@);
            let c = row_cuts(b, m.col_start as int, m.col_end as int);
            &&& c.1 <= c.2
            &&& is_char_boundary(b, c.0)
            &&& is_char_boundary(b, c.1)
            &&& is_char_boundary(b, c.2)
            &&& is_char_boundary(b, c.3)
        }),
    ensures
        ({
            let b = encode_utf8(m.line_text@);
            let c = row_cuts(b, m.col_start as int, m.col_end as int);
            &&& encode_utf8(r.0@) == b.subrange(c.0, c.1)
            &&& encode_utf8(r.1@) == b.subrange(c.1, c.2)
            &&& encode_utf8(r.2@) == b.subrange(c.2, c.3)
        }),
{
    let line = m.line_text.as_str();
    let len = line.len();
    proof {
        vstd::utf8::encode_utf8_valid_utf8(m.line_text@);
        vstd::utf8::is_char_boundary_start_end_of_seq(encode_utf8(m.line_text@));
    }
    let lo = if m.col_start < len {
        m.col_start
    } else {
        len
    };
    let hi = if m.col_end < len {
        m.col_end
    } else {
        len
    };
    let first = if lo > 20 {
        lo - 20
    } else {
        0
    };
    let last = if len - hi > 40 {
        hi + 40
    } else {
        len
    };
    let before = byte_slice(line, first, lo);
    let hit = byte_slice(line, lo, hi);
    let after = byte_slice(line, hi, last);
    (before, hit, after)
}

/// How many hits the vault search shows as found: the number, or `200+`
/// once it has stopped at its cap.
pub fn count_label(found: usize) -> (r: String)
    ensures
        r@ == if found >= MAX_GLOBAL_RESULTS {
            decimal_of(MAX_GLOBAL_RESULTS as nat) + "+"@
        } else {
            decimal_of(found as nat)
        },
{
    if found >= MAX_GLOBAL_RESULTS {
        let mut r = decimal(MAX_GLOBAL_RESULTS);
        r.append("+");
        r
    } else {
        decimal(found)
    }
}

/// `s` followed by spaces up to `w` characters, as `{:w}` writes text.
pub open spec fn padded_right(s: Seq<char>, w: int) -> Seq<char> {
    if s.len() >= w {
        s
    } else {
        s + Seq::new((w - s.len()) as nat, |i: int| ' ')
    }
}

/// Spaces up to `w` characters followed by `s`, as `{:w}` writes a number.
pub open spec fn padded_left(s: Seq<char>, w: int) -> Seq<char> {
    if s.len() >= w {
        s
    } else {
        Seq::new((w - s.len()) as nat, |i: int| ' ') + s
    }
}

/// `s` followed by spaces up to `w` characters.
fn pad_right(s: &str, w: usize) -> (r: String)
    ensures
        r@ == padded_right(s@, w as int),
{
    let mut r = String::from_str(s);
    let n = crate::text::chars_of(s).len();
    let mut k: usize = n;
    while k < w
        invariant
            n == s@.len(),
            n <= k <= w || (k == n && n >= w),
            r@ == s@ + Seq::new((k - n) as nat, |i: int| ' '),
        decreases w - k,
    {
        r.push(' ');
        assert(r@ =~= s@ + Seq::new((k + 1 - n) as nat, |i: int| ' '));
        k += 1;
    }
    assert(n >= w ==> r@ =~= s@);
    r
}

/// Spaces up to `w` characters followed by `s`.
fn pad_left(s: &str, w: usize) -> (r: String)
    ensures
        r@ == padded_left(s@, w as int),
{
    let n = crate::text::chars_of(s).len();
    let mut r = String::new();
    let mut k: usize = n;
    while k < w
        invariant
            n == s@.len(),
            n <= k <= w || (k == n && n >= w),
            r@ == Seq::new((k - n) as nat, |i: int| ' '),
        decreases w - k,
    {
        r.push(' ');
        assert(r@ =~= Seq::new((k + 1 - n) as nat, |i: int| ' '));
        k += 1;
    }
    r.append(s);
    assert(n >= w ==> r@ =~= s@);
    r
}

/// The label before a hit of the vault search: the file name (or `?`) in 20
/// columns and the line number, counted from 1, in 4, as
/// `format!("  {:20} {:4}  ", name, line_no + 1)` writes them.
pub fn hit_label(m: &GlobalMatch) -> (r: String)
    requires
        m.line_no < usize::MAX,
    ensures
        r@ == "  "@ + padded_right(name_or_unknown(m.path@), 20) + " "@ + padded_left(
            decimal_of((m.line_no + 1) as nat),
            4,
        ) + "  "@,
{
    let name = match path_file_name(m.path.as_str()) {
        Some(n) => n,
        None => String::from_str("?"),
    };
    let mut r = String::from_str("  ");
    r.append(pad_right(name.as_str(), 20).as_str());
    r.append(" ");
    r.append(pad_left(decimal(m.line_no + 1).as_str(), 4).as_str());
    r.append("  ");
    r
}

/// The line and column, from 0, of a character offset into a text, as the
/// editor's `Code::point` gives them.
pub uninterp spec fn point_of(text: Seq<char>, pos: usize) -> (usize, usize);

/// Calls `Code::point` on the editor's cursor: its line, and its column
/// within that line, counted in characters. Neither can exceed the cursor
/// itself. It panics past the end of the text, so the cursor must lie within it.
#[verifier::external_body]
fn editor_point(e: &Editor) -> (r: (usize, usize))
    requires
        editor_ok(*e),
    ensures
        r == point_of(editor_text(*e), editor_cursor(*e)),
        r.0 <= editor_cursor(*e),
        r.1 <= editor_cursor(*e),
{
    e.code_ref().point(e.get_cursor())
}

impl App {
    /// The cursor's place in the status line, `line:column` counted from 1,
    /// or nothing for an empty buffer.
    pub fn cursor_label(&self) -> (r: String)
        requires
            self.active_tab < self.tabs@.len(),
            editor_ok(self.tabs@[self.active_tab as int].editor),
            editor_cursor(self.tabs@[self.active_tab as int].editor) < usize::MAX,
        ensures
            ({
                let e = self.tabs@[self.active_tab as int].editor;
                let p = point_of(editor_text(e), editor_cursor(e));
                r@ == if editor_text(e).len() == 0 {
                    Seq::<char>::empty()
                } else {
                    decimal_of((p.0 + 1) as nat) + ":"@ + decimal_of((p.1 + 1) as nat)
                }
            }),
    {
        let e = &self.tabs[self.active_tab].editor;
        if editor_content(e).as_str().is_empty() {
            return String::new();
        }
        let (row, col) = editor_point(e);
        let mut r = decimal(row + 1);
        r.append(":");
        r.append(decimal(col + 1).as_str());
        r
    }
}

} // verus!
