use slate::app::{App, FileOpenState, Mode, OpenPlan, Pane};
use slate::tabs::Tab;

fn app() -> App {
    App::new("/no/such/vault".to_string()).unwrap()
}

#[test]
fn a_new_app_has_one_blank_tab() {
    let a = app();
    assert_eq!(a.tabs.len(), 1);
    assert_eq!(a.active_tab, 0);
    assert!(a.tabs[0].path.is_none());
    assert_eq!(a.mode, Mode::Normal);
    assert_eq!(a.active_pane, Pane::Editor);
    assert!(a.sidebar_visible);
    assert_eq!(a.viewport_height, 20);
    assert_eq!(a.status_msg, "Slate \u{2014} Ctrl+T new tab  Ctrl+W close  Alt+\u{2190}/\u{2192} switch");
}

#[test]
fn tabs_open_switch_and_close() {
    let mut a = app();
    a.new_tab();
    assert_eq!(a.tabs.len(), 2);
    assert_eq!(a.active_tab, 1);
    assert_eq!(a.status_msg, "New tab \u{2014} Ctrl+P to open a file");
    a.next_tab();
    assert_eq!(a.active_tab, 0);
    assert_eq!(a.status_msg, "[ new tab ] \u{2014} Ctrl+P to open");
    a.prev_tab();
    assert_eq!(a.active_tab, 1);
    a.goto_tab(7);
    assert_eq!(a.active_tab, 1);
    a.goto_tab(0);
    assert_eq!(a.active_tab, 0);
    a.close_tab();
    assert_eq!(a.tabs.len(), 1);
    assert_eq!(a.active_tab, 0);
    a.close_tab();
    assert_eq!(a.tabs.len(), 1);
    assert_eq!(a.status_msg, "Slate \u{2014} Ctrl+P to open a file");
}

#[test]
fn closing_the_last_of_several_moves_left() {
    let mut a = app();
    a.new_tab();
    a.new_tab();
    assert_eq!(a.active_tab, 2);
    a.close_tab();
    assert_eq!(a.tabs.len(), 2);
    assert_eq!(a.active_tab, 1);
}

#[test]
fn opening_plans() {
    let mut a = app();
    assert_eq!(a.plan_open("/v/pic.png"), OpenPlan::External);
    assert_eq!(a.plan_open("/v/a.md"), OpenPlan::Load { reuse: true });
    a.place_tab(Tab::load("/v/a.md".to_string(), "# hi"), true);
    assert_eq!(a.tabs.len(), 1);
    assert_eq!(a.status_msg, "a.md \u{2014} e=edit  Ctrl+S=save");
    assert_eq!(a.plan_open("/v/a.md"), OpenPlan::SwitchTo(0));
    assert_eq!(a.plan_open("/v/b.md"), OpenPlan::Load { reuse: false });
    a.place_tab(Tab::load("/v/b.md".to_string(), "text"), false);
    assert_eq!(a.tabs.len(), 2);
    assert_eq!(a.active_tab, 1);
    assert_eq!(a.plan_open("/v/a.md"), OpenPlan::SwitchTo(0));
    a.note_saved();
    assert_eq!(a.status_msg, "b.md \u{2014} saved");
    a.note_external_open("/v/pic.png");
    assert_eq!(a.status_msg, "Opening /v/pic.png in default app\u{2026}");
}

#[test]
fn tab_titles_and_editor_titles() {
    let mut a = app();
    assert_eq!(a.tabs[0].title(), "[ new ]");
    assert_eq!(a.editor_title(), " [ new tab ] ");
    a.place_tab(Tab::load("/v/n.md".to_string(), ""), true);
    assert_eq!(a.tabs[0].title(), "n.md");
    a.tabs[0].dirty = true;
    assert_eq!(a.tabs[0].title(), "n.md [+]");
    assert_eq!(a.editor_title(), " n.md [+] ");
}

#[test]
fn open_dialog_filters_by_name() {
    let mut f = FileOpenState::new();
    f.all_files = vec!["/v/Notes.md".to_string(), "/v/notes/todo.md".to_string(), "/v/x.txt".to_string()];
    f.query = "NOTE".to_string();
    f.selected = 2;
    f.filter();
    assert_eq!(f.results, vec!["/v/Notes.md".to_string()]);
    assert_eq!(f.selected, 0);
    f.query.clear();
    f.filter();
    assert_eq!(f.results.len(), 3);
}

#[test]
fn open_dialog_lists_at_most_fifty() {
    let mut f = FileOpenState::new();
    f.all_files = (0..80).map(|i| format!("/v/f{}.md", i)).collect();
    f.filter();
    assert_eq!(f.results.len(), 50);
    assert_eq!(f.results[49], "/v/f49.md");
    // "f7" matches f7, f17, f27, ..., f67 and f70 to f79: an f, then a 7.
    f.query = "f7".to_string();
    f.filter();
    assert_eq!(f.results.len(), 17);
}

#[test]
fn open_dialog_matches_fuzzily() {
    let mut f = FileOpenState::new();
    f.all_files = vec!["/v/notes.md".to_string(), "/v/todo.md".to_string(), "/v/stn.md".to_string()];
    f.query = "nts".to_string();
    f.filter();
    assert_eq!(f.results, vec!["/v/notes.md".to_string()]);
    f.query = "TDM".to_string();
    f.filter();
    assert_eq!(f.results, vec!["/v/todo.md".to_string()]);
}

#[test]
fn status_line_notes() {
    let mut a = app();
    a.new_tab();
    assert_eq!(a.tab_info(), "  tab 2/2  ");
    assert_eq!(a.match_info(), "");
    assert_eq!(a.find_title(), " Find [0/0] ");
}

#[test]
fn the_same_file_by_another_spelling_switches_tabs() {
    let mut a = app();
    a.place_tab(Tab::load("/v/a.md".to_string(), "x"), true);
    assert_eq!(a.plan_open("/v/./a.md"), OpenPlan::SwitchTo(0));
    assert_eq!(a.plan_open("/v//a.md"), OpenPlan::SwitchTo(0));
    assert_eq!(a.plan_open("/w/a.md"), OpenPlan::Load { reuse: false });
}
