use vstd::prelude::*;

use crate::filetree::{string_views, tree_wf, FileTree};
use crate::paths::{file_name_of, is_text_file, is_text_path, path_components, path_eq, path_file_name};
use crate::search::{step_back, step_forward, GlobalSearch};
use crate::tabs::{editor_content, editor_text, is_blank, path_key, path_view, Tab};
use crate::text::{chars_of, is_subsequence, lowercase_of, subsequence_of, to_lower};

verus! {

/// What the keyboard drives.
#[derive(Debug, Clone, Copy, PartialEq, Eq, Structural)]
pub enum Mode {
    Normal,
    Insert,
    SidePanel,
    InFileSearch,
    FileOpen,
    GlobalSearch,
}

/// Which pane has the focus.
#[derive(Debug, Clone, Copy, PartialEq, Eq, Structural)]
pub enum Pane {
    Editor,
    Sidebar,
}

/// A rectangle of terminal cells.
#[derive(Debug, Clone, Copy, PartialEq, Eq, Structural)]
pub struct Area {
    pub x: u16,
    pub y: u16,
    pub width: u16,
    pub height: u16,
}

/// The cell (`x`, `y`) lies in `a`, whose right and bottom edges stop at `u16::MAX`.
pub open spec fn area_contains(a: Area, x: u16, y: u16) -> bool {
    let right = if a.x + a.width > u16::MAX { u16::MAX as int } else { a.x + a.width };
    let bottom = if a.y + a.height > u16::MAX { u16::MAX as int } else { a.y + a.height };
    a.x <= x < right && a.y <= y < bottom
}

impl Area {
    /// Whether the cell (`x`, `y`) lies in the area.
    pub fn contains(&self, x: u16, y: u16) -> (r: bool)
        ensures
            r == area_contains(*self, x, y),
    {
        let right = self.x.saturating_add(self.width);
        let bottom = self.y.saturating_add(self.height);
        self.x <= x && x < right && self.y <= y && y < bottom
    }
}

/// The most files the open-file dialog lists.
pub const MAX_OPEN_RESULTS: usize = 50;

/// The open-file dialog: a query, the files of the vault, and those listed.
pub struct FileOpenState {
    pub query: String,
    pub all_files: Vec<String>,
    pub results: Vec<String>,
    pub selected: usize,
}

/// The file at `path` matches the lowercased query `q`, fuzzily: the
/// characters of `q` occur in order in its name, lowercased.
pub open spec fn name_matches(path: Seq<char>, q: Seq<char>) -> bool {
    match file_name_of(path) {
        Some(n) => subsequence_of(q, lowercase_of(n)),
        None => false,
    }
}

/// The paths among `all` whose names match the lowercased query `q`, in order.
pub open spec fn matching_paths(all: Seq<Seq<char>>, q: Seq<char>) -> Seq<Seq<char>>
    decreases all.len(),
{
    if all.len() == 0 {
        Seq::empty()
    } else if name_matches(all.last(), q) {
        matching_paths(all.drop_last(), q).push(all.last())
    } else {
        matching_paths(all.drop_last(), q)
    }
}

/// The first `MAX_OPEN_RESULTS` elements of `s`, or all of them.
pub open spec fn first_results(s: Seq<Seq<char>>) -> Seq<Seq<char>> {
    if s.len() <= MAX_OPEN_RESULTS {
        s
    } else {
        s.take(MAX_OPEN_RESULTS as int)
    }
}

/// The files that the dialog lists for `query`: with an empty query the first
/// files of the vault, else the first files whose names hold the query's characters in order, case aside.
pub open spec fn open_candidates(all: Seq<Seq<char>>, query: Seq<char>) -> Seq<Seq<char>> {
    let q = lowercase_of(query);
    if q.len() == 0 {
        first_results(all)
    } else {
        first_results(matching_paths(all, q))
    }
}

impl FileOpenState {
    /// An empty dialog.
    pub fn new() -> (s: Self)
        ensures
            s.query@.len() == 0,
            s.all_files@.len() == 0,
            s.results@.len() == 0,
            s.selected == 0,
    {
        FileOpenState {
            query: String::new(),
            all_files: Vec::new(),
            results: Vec::new(),
            selected: 0,
        }
    }

    /// Lists the files that match the query and selects the first.
    pub fn filter(&mut self)
        ensures
            string_views(final(self).results@) == open_candidates(
                string_views(old(self).all_files@),
                old(self).query@,
            ),
            final(self).selected == 0,
            final(self).query == old(self).query,
            final(self).all_files == old(self).all_files,
    {
        let q = to_lower(self.query.as_str());
        let qc = chars_of(q.as_str());
        let ghost all = string_views(self.all_files@);
        let ghost cands = if qc@.len() == 0 {
            all
        } else {
            matching_paths(all, qc@)
        };
        let mut out: Vec<String> = Vec::new();
        let mut i: usize = 0;
        while i < self.all_files.len() && out.len() < MAX_OPEN_RESULTS
            invariant
                i <= self.all_files@.len(),
                all == string_views(self.all_files@),
                qc@ == lowercase_of(self.query@),
                cands == if qc@.len() == 0 {
                    all
                } else {
                    matching_paths(all, qc@)
                },
                string_views(out@) == if qc@.len() == 0 {
                    all.take(i as int)
                } else {
                    matching_paths(all.take(i as int), qc@)
                },
                out@.len() <= MAX_OPEN_RESULTS,
            decreases self.all_files@.len() - i,
        {
            let path = &self.all_files[i];
            let keep = if qc.len() == 0 {
                true
            } else {
                match path_file_name(path.as_str()) {
                    Some(n) => {
                        let lower = to_lower(n.as_str());
                        let lc = chars_of(lower.as_str());
                        is_subsequence(&qc, &lc)
                    },
                    None => false,
                }
            };
            let ghost before = string_views(out@);
            assert(all.take(i + 1).drop_last() =~= all.take(i as int));
            assert(all.take(i + 1).last() == path@);
            if keep {
                out.push(path.clone());
                assert(string_views(out@) =~= before.push(path@));
            }
            assert(all.take(i + 1) =~= all.take(i as int).push(path@));
            i += 1;
        }
        proof {
            lemma_prefix_results(all, qc@, i as int, string_views(out@));
        }
        self.results = out;
        self.selected = 0;
    }
}

/// Filtering a prefix gives a prefix of the filtered whole.
proof fn lemma_matching_prefix(all: Seq<Seq<char>>, q: Seq<char>, i: int, j: int)
    requires
        0 <= i <= j <= all.len(),
    ensures
        matching_paths(all.take(j), q).take(matching_paths(all.take(i), q).len() as int)
            == matching_paths(all.take(i), q),
        matching_paths(all.take(i), q).len() <= matching_paths(all.take(j), q).len(),
    decreases j - i,
{
    if i < j {
        lemma_matching_prefix(all, q, i, j - 1);
        assert(all.take(j).drop_last() =~= all.take(j - 1));
        let a = matching_paths(all.take(i), q);
        let b = matching_paths(all.take(j - 1), q);
        let c = matching_paths(all.take(j), q);
        if name_matches(all.take(j).last(), q) {
            assert(c == b.push(all.take(j).last()));
            assert(c.take(a.len() as int) =~= b.take(a.len() as int));
        } else {
            assert(c == b);
        }
    } else {
        assert(matching_paths(all.take(i), q).take(matching_paths(all.take(i), q).len() as int)
            =~= matching_paths(all.take(i), q));
    }
}

/// What the dialog's loop collects is the listed candidates.
proof fn lemma_prefix_results(all: Seq<Seq<char>>, q: Seq<char>, i: int, out: Seq<Seq<char>>)
    requires
        0 <= i <= all.len(),
        out == if q.len() == 0 {
            all.take(i)
        } else {
            matching_paths(all.take(i), q)
        },
        out.len() <= MAX_OPEN_RESULTS,
        i < all.len() ==> out.len() == MAX_OPEN_RESULTS,
    ensures
        out == if q.len() == 0 {
            first_results(all)
        } else {
            first_results(matching_paths(all, q))
        },
{
    assert(all.take(all.len() as int) =~= all);
    if q.len() == 0 {
        if i < all.len() {
            assert(out =~= all.take(MAX_OPEN_RESULTS as int));
        }
    } else {
        lemma_matching_prefix(all, q, i, all.len() as int);
        if i < all.len() {
            assert(out =~= matching_paths(all, q).take(MAX_OPEN_RESULTS as int));
        }
    }
}

/// The whole editor state.
pub struct App {
    pub vault_path: String,
    pub mode: Mode,
    pub active_pane: Pane,
    pub tabs: Vec<Tab>,
    pub active_tab: usize,
    pub sidebar_visible: bool,
    pub file_tree: FileTree,
    pub viewport_height: usize,
    pub editor_area: Area,
    pub file_open: FileOpenState,
    pub global_search: GlobalSearch,
    pub status_msg: String,
}

/// What to do to open a file.
#[derive(Debug, Clone, Copy, PartialEq, Eq, Structural)]
pub enum OpenPlan {
    /// Not a text file: hand it to the system's default application.
    External,
    /// Already open: switch to that tab.
    SwitchTo(usize),
    /// Read it into a tab: the current one where `reuse`, else a new one after it.
    Load { reuse: bool },
}

/// The name of the file at `p`, or `?`.
pub open spec fn name_or_unknown(p: Seq<char>) -> Seq<char> {
    match file_name_of(p) {
        Some(n) => n,
        None => "?"@,
    }
}

/// The status line for the active tab showing the file at `path`, or a new buffer.
pub open spec fn status_for(path: Option<Seq<char>>) -> Seq<char> {
    match path {
        None => "[ new tab ] \u{2014} Ctrl+P to open"@,
        Some(p) => name_or_unknown(p) + " \u{2014} e=edit  Ctrl+S=save"@,
    }
}

/// The index of the first tab from `i` on that shows the file at `p`, its
/// path naming the same components.
pub open spec fn tab_index_of(tabs: Seq<Tab>, p: Seq<char>, i: int) -> Option<int>
    decreases tabs.len() - i,
{
    if i < 0 || i >= tabs.len() {
        None
    } else if path_key(tabs[i].path) == Some(path_components(p)) {
        Some(i)
    } else {
        tab_index_of(tabs, p, i + 1)
    }
}

/// The name of the file at `path`, or `?`.
fn name_or_question(path: &str) -> (r: String)
    ensures
        r@ == name_or_unknown(path@),
{
    match path_file_name(path) {
        Some(n) => n,
        None => String::from_str("?"),
    }
}

impl App {
    /// All fields but the tabs are those of `other`.
    pub open spec fn only_tabs_changed(&self, other: App) -> bool {
        &&& self.vault_path == other.vault_path
        &&& self.mode == other.mode
        &&& self.active_pane == other.active_pane
        &&& self.active_tab == other.active_tab
        &&& self.sidebar_visible == other.sidebar_visible
        &&& self.file_tree == other.file_tree
        &&& self.viewport_height == other.viewport_height
        &&& self.editor_area == other.editor_area
        &&& self.file_open == other.file_open
        &&& self.global_search == other.global_search
        &&& self.status_msg == other.status_msg
    }

    /// All fields but the tabs, the active tab and the status line are those of `other`.
    pub open spec fn same_frame(&self, other: App) -> bool {
        &&& self.vault_path == other.vault_path
        &&& self.mode == other.mode
        &&& self.active_pane == other.active_pane
        &&& self.sidebar_visible == other.sidebar_visible
        &&& self.file_tree == other.file_tree
        &&& self.viewport_height == other.viewport_height
        &&& self.editor_area == other.editor_area
        &&& self.file_open == other.file_open
        &&& self.global_search == other.global_search
    }

    /// There is at least one tab and the active one is among them.
    pub open spec fn wf(&self) -> bool {
        &&& self.tabs@.len() >= 1
        &&& self.active_tab < self.tabs@.len()
    }

    /// The editor for the vault at `vault_path` (already made absolute): one
    /// empty tab, the sidebar shown and listing the vault.
    pub fn new(vault_path: String) -> (r: Result<App, anyhow::Error>)
        ensures
            r matches Ok(a) && {
                &&& a.wf()
                &&& a.tabs@.len() == 1
                &&& is_blank(a.tabs@[0])
                &&& a.vault_path@ == vault_path@
                &&& a.mode == Mode::Normal
                &&& a.active_pane == Pane::Editor
                &&& a.sidebar_visible
                &&& a.viewport_height == 20
                &&& a.file_tree.root@ == vault_path@
                &&& tree_wf(a.file_tree.nodes())
                &&& a.status_msg@ == "Slate \u{2014} Ctrl+T new tab  Ctrl+W close  Alt+\u{2190}/\u{2192} switch"@
            },
    {
        let file_tree = match FileTree::new(vault_path.as_str()) {
            Ok(t) => t,
            Err(e) => return Err(e),
        };
        let mut tabs: Vec<Tab> = Vec::new();
        tabs.push(Tab::empty());
        Ok(App {
            vault_path,
            mode: Mode::Normal,
            active_pane: Pane::Editor,
            tabs,
            active_tab: 0,
            sidebar_visible: true,
            file_tree,
            viewport_height: 20,
            editor_area: Area { x: 0, y: 0, width: 0, height: 0 },
            file_open: FileOpenState::new(),
            global_search: GlobalSearch::new(),
            status_msg: String::from_str(
                "Slate \u{2014} Ctrl+T new tab  Ctrl+W close  Alt+\u{2190}/\u{2192} switch",
            ),
        })
    }

    /// The active tab.
    pub fn tab(&self) -> (r: &Tab)
        requires
            self.active_tab < self.tabs@.len(),
        ensures
            *r == self.tabs@[self.active_tab as int],
    {
        &self.tabs[self.active_tab]
    }

    /// The active tab, to change.
    pub fn tab_mut(&mut self) -> (r: &mut Tab)
        requires
            old(self).active_tab < old(self).tabs@.len(),
        ensures
            *r == old(self).tabs@[old(self).active_tab as int],
            final(self).tabs@ == old(self).tabs@.update(old(self).active_tab as int, *final(r)),
            final(self).active_tab == old(self).active_tab,
            final(self).only_tabs_changed(*old(self)),
    {
        &mut self.tabs[self.active_tab]
    }

    /// Sets the status line for the active tab.
    pub fn update_status(&mut self)
        requires
            old(self).active_tab < old(self).tabs@.len(),
        ensures
            final(self).status_msg@ == status_for(
                path_view(old(self).tabs@[old(self).active_tab as int].path),
            ),
            final(self).tabs == old(self).tabs,
            final(self).active_tab == old(self).active_tab,
            final(self).same_frame(*old(self)),
    {
        let msg = match &self.tabs[self.active_tab].path {
            None => String::from_str("[ new tab ] \u{2014} Ctrl+P to open"),
            Some(p) => {
                let mut m = name_or_question(p.as_str());
                m.append(" \u{2014} e=edit  Ctrl+S=save");
                m
            },
        };
        self.status_msg = msg;
    }

    /// Opens an empty tab after the active one and makes it active.
    pub fn new_tab(&mut self)
        requires
            old(self).active_tab < old(self).tabs@.len(),
        ensures
            final(self).active_tab == old(self).active_tab + 1,
            exists|t: Tab|
                is_blank(t) && final(self).tabs@ == old(self).tabs@.insert(
                    old(self).active_tab + 1,
                    t,
                ),
            final(self).status_msg@ == "New tab \u{2014} Ctrl+P to open a file"@,
            final(self).same_frame(*old(self)),
    {
        let t = Tab::empty();
        let ghost tv = t;
        let len = self.tabs.len();
        assert(self.active_tab < len);
        self.tabs.insert(self.active_tab + 1, t);
        self.active_tab += 1;
        self.status_msg = String::from_str("New tab \u{2014} Ctrl+P to open a file");
        assert(is_blank(tv) && self.tabs@ == old(self).tabs@.insert(old(self).active_tab + 1, tv));
    }

    /// Closes the active tab, making the one after it active (or the new last
    /// one); the last tab left is blanked instead.
    pub fn close_tab(&mut self)
        requires
            old(self).tabs@.len() == 1 || old(self).active_tab < old(self).tabs@.len(),
        ensures
            old(self).tabs@.len() == 1 ==> {
                &&& final(self).tabs@.len() == 1
                &&& is_blank(final(self).tabs@[0])
                &&& final(self).active_tab == old(self).active_tab
                &&& final(self).status_msg@ == "Slate \u{2014} Ctrl+P to open a file"@
            },
            old(self).tabs@.len() != 1 ==> {
                &&& final(self).tabs@ == old(self).tabs@.remove(old(self).active_tab as int)
                &&& final(self).active_tab == if old(self).active_tab < final(self).tabs@.len() {
                    old(self).active_tab as int
                } else {
                    final(self).tabs@.len() - 1
                }
                &&& final(self).status_msg@ == status_for(
                    path_view(final(self).tabs@[final(self).active_tab as int].path),
                )
            },
            final(self).same_frame(*old(self)),
    {
        if self.tabs.len() == 1 {
            let t = Tab::empty();
            self.tabs.set(0, t);
            self.status_msg = String::from_str("Slate \u{2014} Ctrl+P to open a file");
            return;
        }
        self.tabs.remove(self.active_tab);
        if self.active_tab >= self.tabs.len() {
            self.active_tab = self.tabs.len() - 1;
        }
        self.update_status();
    }

    /// Makes the next tab active, wrapping around.
    pub fn next_tab(&mut self)
        requires
            old(self).tabs@.len() > 0,
            old(self).active_tab < usize::MAX,
        ensures
            final(self).active_tab == step_forward(old(self).active_tab as int, old(self).tabs@.len() as int),
            final(self).tabs == old(self).tabs,
            final(self).status_msg@ == status_for(
                path_view(final(self).tabs@[final(self).active_tab as int].path),
            ),
            final(self).same_frame(*old(self)),
    {
        self.active_tab = (self.active_tab + 1) % self.tabs.len();
        self.update_status();
    }

    /// Makes the previous tab active, wrapping around.
    pub fn prev_tab(&mut self)
        requires
            old(self).tabs@.len() > 0,
            old(self).active_tab <= old(self).tabs@.len(),
        ensures
            final(self).active_tab == step_back(old(self).active_tab as int, old(self).tabs@.len() as int),
            final(self).tabs == old(self).tabs,
            final(self).status_msg@ == status_for(
                path_view(final(self).tabs@[final(self).active_tab as int].path),
            ),
            final(self).same_frame(*old(self)),
    {
        if self.active_tab == 0 {
            self.active_tab = self.tabs.len() - 1;
        } else {
            self.active_tab -= 1;
        }
        self.update_status();
    }

    /// Makes tab `n` active, if there is one.
    pub fn goto_tab(&mut self, n: usize)
        ensures
            n < old(self).tabs@.len() ==> final(self).active_tab == n && final(self).status_msg@
                == status_for(path_view(old(self).tabs@[n as int].path)),
            n >= old(self).tabs@.len() ==> final(self).active_tab == old(self).active_tab
                && final(self).status_msg == old(self).status_msg,
            final(self).tabs == old(self).tabs,
            final(self).same_frame(*old(self)),
    {
        if n < self.tabs.len() {
            self.active_tab = n;
            self.update_status();
        }
    }

    /// What opening the file at `path` takes: files that are not text go to
    /// the default application; a file already open is switched to; otherwise
    /// it is read into the active tab where that is a blank buffer, or into a
    /// new tab after it.
    pub fn plan_open(&self, path: &str) -> (r: OpenPlan)
        requires
            self.active_tab < self.tabs@.len(),
        ensures
            (r == OpenPlan::External) == !is_text_path(path@),
            r matches OpenPlan::SwitchTo(i) ==> is_text_path(path@) && tab_index_of(
                self.tabs@,
                path@,
                0,
            ) == Some(i as int),
            r matches OpenPlan::Load { reuse } ==> is_text_path(path@) && tab_index_of(
                self.tabs@,
                path@,
                0,
            ) is None && reuse == (self.tabs@[self.active_tab as int].path is None && editor_text(
                self.tabs@[self.active_tab as int].editor,
            ).len() == 0),
    {
        if !is_text_file(path) {
            return OpenPlan::External;
        }
        let mut i: usize = 0;
        while i < self.tabs.len()
            invariant
                i <= self.tabs@.len(),
                is_text_path(path@),
                tab_index_of(self.tabs@, path@, 0) == tab_index_of(self.tabs@, path@, i as int),
            decreases self.tabs@.len() - i,
        {
            let hit = match &self.tabs[i].path {
                Some(p) => path_eq(p.as_str(), path),
                None => false,
            };
            if hit {
                assert(path_key(self.tabs@[i as int].path) == Some(path_components(path@)));
                return OpenPlan::SwitchTo(i);
            }
            i += 1;
        }
        let tab = &self.tabs[self.active_tab];
        let reuse = match &tab.path {
            None => editor_content(&tab.editor).as_str().is_empty(),
            Some(_) => false,
        };
        OpenPlan::Load { reuse }
    }

    /// Puts a freshly loaded tab in place: over the active tab where `reuse`,
    /// else after it, and makes it active.
    pub fn place_tab(&mut self, tab: Tab, reuse: bool)
        requires
            old(self).active_tab < old(self).tabs@.len(),
        ensures
            reuse ==> final(self).tabs@ == old(self).tabs@.update(old(self).active_tab as int, tab)
                && final(self).active_tab == old(self).active_tab,
            !reuse ==> final(self).tabs@ == old(self).tabs@.insert(old(self).active_tab + 1, tab)
                && final(self).active_tab == old(self).active_tab + 1,
            final(self).status_msg@ == status_for(path_view(tab.path)),
            final(self).same_frame(*old(self)),
    {
        if reuse {
            self.tabs.set(self.active_tab, tab);
        } else {
            let len = self.tabs.len();
            assert(self.active_tab < len);
            self.tabs.insert(self.active_tab + 1, tab);
            self.active_tab += 1;
        }
        self.update_status();
    }

    /// Notes that the file at `path` went to the default application.
    pub fn note_external_open(&mut self, path: &str)
        ensures
            final(self).status_msg@ == "Opening "@ + path@ + " in default app\u{2026}"@,
            final(self).tabs == old(self).tabs,
            final(self).active_tab == old(self).active_tab,
            final(self).same_frame(*old(self)),
    {
        let mut m = String::from_str("Opening ");
        m.append(path);
        m.append(" in default app\u{2026}");
        self.status_msg = m;
    }

    /// Notes that the active tab was written to its file: a tab with a file
    /// has no unsaved changes left.
    pub fn note_saved(&mut self)
        requires
            old(self).active_tab < old(self).tabs@.len(),
        ensures
            final(self).status_msg@ == match path_view(old(self).tabs@[old(self).active_tab as int].path) {
                Some(p) => name_or_unknown(p),
                None => "?"@,
            } + " \u{2014} saved"@,
            final(self).tabs@.len() == old(self).tabs@.len(),
            forall|i: int|
                0 <= i < old(self).tabs@.len() && i != old(self).active_tab ==> final(self).tabs@[i]
                    == old(self).tabs@[i],
            ({
                let (t, u) = (old(self).tabs@[old(self).active_tab as int], final(self).tabs@[old(self).active_tab as int]);
                &&& u.path == t.path
                &&& u.dirty == (t.dirty && t.path is None)
                &&& u.in_file_search == t.in_file_search
                &&& u.editor == t.editor
            }),
            final(self).active_tab == old(self).active_tab,
            final(self).same_frame(*old(self)),
    {
        self.update_status();
        let mut m = match &self.tabs[self.active_tab].path {
            Some(p) => name_or_question(p.as_str()),
            None => String::from_str("?"),
        };
        m.append(" \u{2014} saved");
        self.status_msg = m;
        if self.tabs[self.active_tab].path.is_some() {
            let tab = self.tab_mut();
            tab.dirty = false;
        }
    }
}

/// Every path kept by `matching_paths` is one of the given paths whose name matches.
proof fn lemma_matching_paths(all: Seq<Seq<char>>, q: Seq<char>)
    ensures
        forall|k: int|
            0 <= k < matching_paths(all, q).len() ==> name_matches(#[trigger] matching_paths(all, q)[k], q)
                && all.contains(matching_paths(all, q)[k]),
    decreases all.len(),
{
    if all.len() > 0 {
        lemma_matching_paths(all.drop_last(), q);
        let m = matching_paths(all, q);
        let prev = matching_paths(all.drop_last(), q);
        assert forall|k: int| 0 <= k < m.len() implies name_matches(#[trigger] m[k], q) && all.contains(m[k]) by {
            if k < prev.len() {
                assert(m[k] == prev[k]);
                let i = choose|i: int| 0 <= i < all.drop_last().len() && all.drop_last()[i] == prev[k];
                assert(all[i] == prev[k]);
            } else {
                assert(m[k] == all.last());
                assert(all[all.len() - 1] == all.last());
            }
        }
    }
}

/// The open-file dialog lists at most `MAX_OPEN_RESULTS` files, all of them
/// files of the vault; with a query, each listed file's name holds the
/// query's characters in order, case aside; with an empty query, the first files of the vault are listed.
pub proof fn lemma_open_candidates(all: Seq<Seq<char>>, query: Seq<char>)
    ensures
        open_candidates(all, query).len() <= MAX_OPEN_RESULTS,
        forall|k: int| 0 <= k < open_candidates(all, query).len() ==> all.contains(#[trigger] open_candidates(all, query)[k]),
        lowercase_of(query).len() > 0 ==> forall|k: int|
            0 <= k < open_candidates(all, query).len() ==> name_matches(
                #[trigger] open_candidates(all, query)[k],
                lowercase_of(query),
            ),
        lowercase_of(query).len() == 0 ==> open_candidates(all, query) == all.take(
            open_candidates(all, query).len() as int,
        ),
{
    let q = lowercase_of(query);
    let r = open_candidates(all, query);
    lemma_matching_paths(all, q);
    if q.len() == 0 {
        assert forall|k: int| 0 <= k < r.len() implies all.contains(#[trigger] r[k]) by {
            assert(all[k] == r[k]);
        }
        assert(r =~= all.take(r.len() as int));
    } else {
        let m = matching_paths(all, q);
        assert forall|k: int| 0 <= k < r.len() implies all.contains(#[trigger] r[k]) && name_matches(r[k], q) by {
            assert(r[k] == m[k]);
        }
    }
}

/// No two tabs show the same file.
pub open spec fn distinct_paths(tabs: Seq<Tab>) -> bool {
    forall|i: int, j: int|
        0 <= i < tabs.len() && 0 <= j < tabs.len() && i != j && #[trigger] path_key(tabs[i].path)
            is Some ==> path_key(tabs[i].path) != #[trigger] path_key(tabs[j].path)
}

proof fn lemma_tab_index_none(tabs: Seq<Tab>, p: Seq<char>, i: int)
    requires
        0 <= i,
        tab_index_of(tabs, p, i) is None,
    ensures
        forall|j: int| i <= j < tabs.len() ==> path_key(#[trigger] tabs[j].path) != Some(path_components(p)),
    decreases tabs.len() - i,
{
    if i < tabs.len() {
        lemma_tab_index_none(tabs, p, i + 1);
    }
}

/// Opening files keeps every file in at most one tab: a file that is not yet
/// open (what `plan_open` asks for before loading) placed over a blank active
/// tab, or after it, leaves no two tabs showing the same file.
pub proof fn lemma_place_keeps_distinct(tabs: Seq<Tab>, a: int, t: Tab, reuse: bool)
    requires
        distinct_paths(tabs),
        0 <= a < tabs.len(),
        t.path is Some,
        tab_index_of(tabs, path_view(t.path)->0, 0) is None,
        reuse ==> tabs[a].path is None,
    ensures
        reuse ==> distinct_paths(tabs.update(a, t)),
        !reuse ==> distinct_paths(tabs.insert(a + 1, t)),
{
    let p = path_view(t.path)->0;
    lemma_tab_index_none(tabs, p, 0);
    if reuse {
        let r = tabs.update(a, t);
        assert forall|i: int, j: int|
            0 <= i < r.len() && 0 <= j < r.len() && i != j && #[trigger] path_key(r[i].path) is Some
                implies path_key(r[i].path) != #[trigger] path_key(r[j].path) by {
            if i != a && j != a {
                assert(path_key(tabs[i].path) != path_key(tabs[j].path));
            }
        }
    } else {
        let r = tabs.insert(a + 1, t);
        tabs.insert_ensures(a + 1, t);
        assert forall|i: int, j: int|
            0 <= i < r.len() && 0 <= j < r.len() && i != j && #[trigger] path_key(r[i].path) is Some
                implies path_key(r[i].path) != #[trigger] path_key(r[j].path) by {
            let ii = if i <= a { i } else if i == a + 1 { -1 } else { i - 1 };
            let jj = if j <= a { j } else if j == a + 1 { -1 } else { j - 1 };
            if ii >= 0 && jj >= 0 {
                assert(r[i] == tabs[ii]);
                assert(r[j] == tabs[jj]);
                assert(path_key(tabs[ii].path) != path_key(tabs[jj].path));
            } else if ii >= 0 {
                assert(r[i] == tabs[ii]);
            } else {
                assert(r[j] == tabs[jj]);
            }
        }
    }
}

/// Opening an empty tab after tab `a`, or closing tab `a`, leaves no two tabs
/// showing the same file.
pub proof fn lemma_new_and_close_keep_distinct(tabs: Seq<Tab>, a: int, b: Tab)
    requires
        distinct_paths(tabs),
        0 <= a < tabs.len(),
        b.path is None,
    ensures
        distinct_paths(tabs.insert(a + 1, b)),
        distinct_paths(tabs.remove(a)),
{
    assert(distinct_paths(tabs.insert(a + 1, b))) by {
        let r = tabs.insert(a + 1, b);
        tabs.insert_ensures(a + 1, b);
        assert forall|i: int, j: int|
            0 <= i < r.len() && 0 <= j < r.len() && i != j && #[trigger] path_key(r[i].path) is Some
                implies path_key(r[i].path) != #[trigger] path_key(r[j].path) by {
            let ii = if i <= a { i } else if i == a + 1 { -1 } else { i - 1 };
            let jj = if j <= a { j } else if j == a + 1 { -1 } else { j - 1 };
            if ii >= 0 && jj >= 0 {
                assert(r[i] == tabs[ii]);
                assert(r[j] == tabs[jj]);
                assert(path_key(tabs[ii].path) != path_key(tabs[jj].path));
            } else if ii >= 0 {
                assert(r[i] == tabs[ii]);
            } else {
                assert(r[i] == b);
            }
        }
    }
    let r = tabs.remove(a);
    tabs.remove_ensures(a);
    assert forall|i: int, j: int|
        0 <= i < r.len() && 0 <= j < r.len() && i != j && #[trigger] path_key(r[i].path) is Some
            implies path_key(r[i].path) != #[trigger] path_key(r[j].path) by {
        let ii = if i < a { i } else { i + 1 };
        let jj = if j < a { j } else { j + 1 };
        assert(r[i] == tabs[ii]);
        assert(r[j] == tabs[jj]);
        assert(path_key(tabs[ii].path) != path_key(tabs[jj].path));
    }
}

} // verus!
