use crossterm::event::{KeyCode as TermCode, KeyEvent, KeyModifiers};
use slate::app::{App, Mode, Pane};
use slate::events::{handle_key, line_start, Key, KeyCode, KeyOutcome, AfterOpen, ALT, CONTROL, NO_MODIFIERS, SHIFT};
use slate::search::{GlobalMatch};
use slate::tabs::Tab;

fn key(code: KeyCode, modifiers: u8) -> Key {
    let tc = match code {
        KeyCode::Char(c) => TermCode::Char(c),
        KeyCode::Esc => TermCode::Esc,
        KeyCode::Enter => TermCode::Enter,
        KeyCode::Backspace => TermCode::Backspace,
        _ => TermCode::Null,
    };
    Key { code, modifiers, raw: KeyEvent::new(tc, KeyModifiers::from_bits_truncate(modifiers)) }
}

fn app() -> App {
    App::new("/no/such/vault".to_string()).unwrap()
}

#[test]
fn quit_and_save_keys() {
    let mut a = app();
    assert!(matches!(handle_key(&mut a, &key(KeyCode::Char('q'), CONTROL)), KeyOutcome::Quit));
    assert!(matches!(handle_key(&mut a, &key(KeyCode::Char('s'), CONTROL)), KeyOutcome::Save));
    assert!(matches!(handle_key(&mut a, &key(KeyCode::Char('q'), NO_MODIFIERS)), KeyOutcome::Continue));
}

#[test]
fn insert_mode_round_trip() {
    let mut a = app();
    handle_key(&mut a, &key(KeyCode::Char('i'), NO_MODIFIERS));
    assert_eq!(a.mode, Mode::Insert);
    assert_eq!(a.status_msg, "-- INSERT -- Esc=normal  Ctrl+S=save");
    handle_key(&mut a, &key(KeyCode::Char('x'), NO_MODIFIERS));
    assert!(a.tabs[0].dirty);
    assert!(matches!(handle_key(&mut a, &key(KeyCode::Char('s'), CONTROL)), KeyOutcome::Save));
    handle_key(&mut a, &key(KeyCode::Esc, NO_MODIFIERS));
    assert_eq!(a.mode, Mode::Normal);
}

#[test]
fn tab_keys() {
    let mut a = app();
    handle_key(&mut a, &key(KeyCode::Char('t'), CONTROL));
    handle_key(&mut a, &key(KeyCode::Char('t'), CONTROL));
    assert_eq!((a.tabs.len(), a.active_tab), (3, 2));
    handle_key(&mut a, &key(KeyCode::Right, ALT));
    assert_eq!(a.active_tab, 0);
    handle_key(&mut a, &key(KeyCode::Char('h'), ALT));
    assert_eq!(a.active_tab, 2);
    handle_key(&mut a, &key(KeyCode::Char('2'), ALT));
    assert_eq!(a.active_tab, 1);
    handle_key(&mut a, &key(KeyCode::Char('9'), ALT));
    assert_eq!(a.active_tab, 1);
    handle_key(&mut a, &key(KeyCode::Char('0'), ALT));
    assert_eq!(a.active_tab, 1);
    handle_key(&mut a, &key(KeyCode::Char('w'), CONTROL));
    assert_eq!(a.tabs.len(), 2);
}

#[test]
fn sidebar_keys() {
    let mut a = app();
    handle_key(&mut a, &key(KeyCode::Char('e'), CONTROL));
    assert_eq!((a.mode, a.active_pane), (Mode::SidePanel, Pane::Sidebar));
    handle_key(&mut a, &key(KeyCode::Esc, NO_MODIFIERS));
    assert_eq!((a.mode, a.active_pane), (Mode::Normal, Pane::Editor));
    handle_key(&mut a, &key(KeyCode::Char('b'), CONTROL));
    assert!(!a.sidebar_visible);
    handle_key(&mut a, &key(KeyCode::Char('e'), CONTROL));
    assert_eq!(a.mode, Mode::Normal);
}

#[test]
fn in_file_search_keys() {
    let mut a = app();
    a.place_tab(Tab::load("/v/n.md".to_string(), "one two one"), true);
    handle_key(&mut a, &key(KeyCode::Char('f'), CONTROL));
    assert_eq!(a.mode, Mode::InFileSearch);
    handle_key(&mut a, &key(KeyCode::Char('o'), NO_MODIFIERS));
    handle_key(&mut a, &key(KeyCode::Char('n'), NO_MODIFIERS));
    handle_key(&mut a, &key(KeyCode::Char('x'), NO_MODIFIERS));
    assert_eq!(a.tabs[0].in_file_search.query, "onx");
    assert!(a.tabs[0].in_file_search.matches.is_empty());
    handle_key(&mut a, &key(KeyCode::Backspace, NO_MODIFIERS));
    assert_eq!(a.tabs[0].in_file_search.matches.len(), 2);
    assert_eq!(a.match_position(), (1, 2));
    handle_key(&mut a, &key(KeyCode::Enter, NO_MODIFIERS));
    assert_eq!(a.mode, Mode::Normal);
    assert_eq!(a.tabs[0].in_file_search.current, 1);
    handle_key(&mut a, &key(KeyCode::Char('n'), NO_MODIFIERS));
    assert_eq!(a.tabs[0].in_file_search.current, 0);
    handle_key(&mut a, &key(KeyCode::Char('N'), SHIFT));
    assert_eq!(a.tabs[0].in_file_search.current, 1);
}

#[test]
fn open_dialog_keys() {
    let mut a = app();
    handle_key(&mut a, &key(KeyCode::Char('p'), CONTROL));
    assert_eq!(a.mode, Mode::FileOpen);
    a.file_open.results = vec!["/v/a.md".to_string(), "/v/b.md".to_string()];
    handle_key(&mut a, &key(KeyCode::Char('j'), CONTROL));
    assert_eq!(a.file_open.selected, 1);
    match handle_key(&mut a, &key(KeyCode::Enter, NO_MODIFIERS)) {
        KeyOutcome::Open { path, then } => {
            assert_eq!(path, "/v/b.md");
            assert_eq!(then, AfterOpen::Normal);
        },
        _ => panic!("expected an open"),
    }
    a.finish_open(AfterOpen::Normal);
    assert_eq!(a.mode, Mode::Normal);
}

#[test]
fn vault_search_keys() {
    let mut a = app();
    handle_key(&mut a, &key(KeyCode::Char('g'), CONTROL));
    assert_eq!(a.mode, Mode::GlobalSearch);
    handle_key(&mut a, &key(KeyCode::Char('a'), NO_MODIFIERS));
    assert_eq!(a.global_search.query, "a");
    assert!(a.global_search.dirty);
    assert!(matches!(handle_key(&mut a, &key(KeyCode::Enter, NO_MODIFIERS)), KeyOutcome::Continue));
    a.global_search.results.push(GlobalMatch {
        path: "/v/a.md".to_string(),
        line_no: 3,
        line_text: "a".to_string(),
        col_start: 0,
        col_end: 1,
    });
    match handle_key(&mut a, &key(KeyCode::Enter, NO_MODIFIERS)) {
        KeyOutcome::Open { path, then } => {
            assert_eq!(path, "/v/a.md");
            assert_eq!(then, AfterOpen::JumpToLine(3));
        },
        _ => panic!("expected an open"),
    }
    handle_key(&mut a, &key(KeyCode::Esc, NO_MODIFIERS));
    assert_eq!(a.mode, Mode::Normal);
}

#[test]
fn line_starts_count_line_endings() {
    assert_eq!(line_start("ab\ncde\nf", 0), 0);
    assert_eq!(line_start("ab\ncde\nf", 1), 3);
    assert_eq!(line_start("ab\ncde\nf", 2), 7);
    assert_eq!(line_start("ab\ncde\nf", 9), 9);
    assert_eq!(line_start("\u{e9}\r\nx", 1), 2);
}

#[test]
fn g_jumps_to_top_and_shift_g_to_bottom() {
    let mut a = app();
    a.place_tab(Tab::load("/v/a.md".to_string(), "one\ntwo\nthree"), true);
    handle_key(&mut a, &key(KeyCode::Char('G'), SHIFT));
    assert_eq!(a.tab().editor.get_cursor(), 13);
    handle_key(&mut a, &key(KeyCode::Char('g'), NO_MODIFIERS));
    assert_eq!(a.tab().editor.get_cursor(), 0);
    assert_eq!(a.mode, Mode::Normal);
}

#[test]
fn saving_clears_unsaved_changes() {
    let mut a = app();
    a.place_tab(Tab::load("/v/a.md".to_string(), "x"), true);
    a.tab_mut().dirty = true;
    a.note_saved();
    assert!(!a.tab().dirty);
    assert_eq!(a.status_msg, "a.md \u{2014} saved");
}

#[test]
fn j_and_k_move_between_lines() {
    let mut a = app();
    a.place_tab(Tab::load("/v/a.md".to_string(), "one\ntwo\nthree"), true);
    a.editor_area = slate::app::Area { x: 0, y: 0, width: 40, height: 10 };
    handle_key(&mut a, &key(KeyCode::Char('j'), NO_MODIFIERS));
    assert_eq!(a.tab().editor.get_cursor(), 4);
    handle_key(&mut a, &key(KeyCode::Char('j'), NO_MODIFIERS));
    assert_eq!(a.tab().editor.get_cursor(), 8);
    handle_key(&mut a, &key(KeyCode::Char('k'), NO_MODIFIERS));
    assert_eq!(a.tab().editor.get_cursor(), 4);
    assert_eq!(a.cursor_label(), "2:1");
}
