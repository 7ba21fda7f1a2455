use slate::search::{is_settled, GlobalSearch, SearchState, VaultFile, MAX_GLOBAL_RESULTS};

fn ranges(s: &SearchState) -> Vec<(usize, usize)> {
    s.matches.iter().map(|m| (m.start_char, m.end_char)).collect()
}

#[test]
fn in_file_search_is_case_insensitive() {
    let mut s = SearchState::new();
    s.query = "foo".to_string();
    s.recompute_matches("Foo bar FOO foo");
    assert_eq!(ranges(&s), vec![(0, 3), (8, 11), (12, 15)]);
    assert_eq!(s.current, 0);
}

#[test]
fn in_file_search_counts_characters_not_bytes() {
    let mut s = SearchState::new();
    s.query = "b".to_string();
    s.recompute_matches("\u{e9}\u{e9}b");
    assert_eq!(ranges(&s), vec![(2, 3)]);
}

#[test]
fn in_file_search_does_not_overlap() {
    let mut s = SearchState::new();
    s.query = "aa".to_string();
    s.recompute_matches("aaaaa");
    assert_eq!(ranges(&s), vec![(0, 2), (2, 4)]);
}

#[test]
fn empty_query_has_no_hits() {
    let mut s = SearchState::new();
    s.recompute_matches("anything");
    assert!(s.matches.is_empty());
    assert!(s.current_match().is_none());
}

#[test]
fn next_and_prev_wrap_around() {
    let mut s = SearchState::new();
    s.query = "x".to_string();
    let text = "x.x.x";
    s.next_match(text);
    assert_eq!(ranges(&s).len(), 3);
    assert_eq!(s.current, 1);
    s.next_match(text);
    assert_eq!(s.current, 2);
    s.next_match(text);
    assert_eq!(s.current, 0);
    s.prev_match(text);
    assert_eq!(s.current, 2);
    s.next_match(text);
    assert_eq!(s.current, 0);
    assert_eq!(s.current_match().unwrap().start_char, 0);
}

#[test]
fn prev_after_fresh_search_goes_to_last() {
    let mut s = SearchState::new();
    s.query = "x".to_string();
    s.prev_match("x x x x");
    assert_eq!(s.current, 3);
}

#[test]
fn next_without_hits_stays_at_zero() {
    let mut s = SearchState::new();
    s.query = "zz".to_string();
    s.next_match("abc");
    assert_eq!(s.current, 0);
    assert!(s.matches.is_empty());
}

fn file(path: &str, text: &str) -> VaultFile {
    VaultFile { path: path.to_string(), text: text.to_string() }
}

#[test]
fn vault_search_finds_first_hit_per_line() {
    let mut g = GlobalSearch::new();
    g.query = "Note".to_string();
    let files = vec![
        file("/v/a.md", "a note, another note\nnothing\r\nNOTE here"),
        file("/v/b.rs", "note in code"),
        file("/v/c.TXT", "final note"),
        file("/v/d", "note without extension"),
    ];
    g.run_search(&files);
    let got: Vec<(String, usize, String, usize, usize)> = g
        .results
        .iter()
        .map(|m| (m.path.clone(), m.line_no, m.line_text.clone(), m.col_start, m.col_end))
        .collect();
    assert_eq!(
        got,
        vec![
            ("/v/a.md".to_string(), 0, "a note, another note".to_string(), 2, 6),
            ("/v/a.md".to_string(), 2, "NOTE here".to_string(), 0, 4),
            ("/v/c.TXT".to_string(), 0, "final note".to_string(), 6, 10),
            ("/v/d".to_string(), 0, "note without extension".to_string(), 0, 4),
        ]
    );
    assert_eq!(g.selected, 0);
}

#[test]
fn vault_search_columns_are_bytes() {
    let mut g = GlobalSearch::new();
    g.query = "ab".to_string();
    g.run_search(&vec![file("n.md", "\u{e9}\u{e9}ab")]);
    assert_eq!(g.results[0].col_start, 4);
    assert_eq!(g.results[0].col_end, 6);
}

#[test]
fn vault_search_needs_two_bytes() {
    let mut g = GlobalSearch::new();
    g.query = "a".to_string();
    g.run_search(&vec![file("n.md", "aaa")]);
    assert!(g.results.is_empty());
    g.query = "\u{e9}".to_string();
    g.run_search(&vec![file("n.md", "\u{e9}")]);
    assert_eq!(g.results.len(), 1);
}

#[test]
fn vault_search_stops_at_the_cap() {
    let mut g = GlobalSearch::new();
    g.query = "hit".to_string();
    let text = "hit\n".repeat(150);
    let files = vec![file("one.md", &text), file("two.md", &text)];
    g.run_search(&files);
    assert_eq!(g.results.len(), MAX_GLOBAL_RESULTS);
    assert_eq!(g.results[199].path, "two.md");
    assert_eq!(g.results[199].line_no, 49);
}

#[test]
fn vault_search_moves_and_selects() {
    let mut g = GlobalSearch::new();
    assert!(g.selected_result().is_none());
    g.query = "xy".to_string();
    g.run_search(&vec![file("a.md", "xy\nxy")]);
    g.move_up();
    assert_eq!(g.selected, 0);
    g.move_down();
    assert_eq!(g.selected, 1);
    g.move_down();
    assert_eq!(g.selected, 1);
    let (p, n, t) = g.selected_result().unwrap();
    assert_eq!((p.as_str(), n, t), ("a.md", 1, "xy"));
    g.move_up();
    assert_eq!(g.selected, 0);
}

#[test]
fn debounce_waits_for_quiet() {
    assert!(!is_settled(None));
    assert!(!is_settled(Some(149)));
    assert!(is_settled(Some(150)));
    let mut g = GlobalSearch::new();
    assert!(!g.tick_debounce());
    g.mark_dirty();
    assert!(g.dirty);
    assert!(!g.tick_debounce());
    assert!(g.dirty);
}

#[test]
fn in_file_search_maps_lowercased_offsets_back_to_the_text() {
    // Capital sharp s takes three bytes and lowercases to two.
    let mut s = SearchState::new();
    s.query = "a".to_string();
    s.recompute_matches("\u{1e9e}xa");
    assert_eq!(ranges(&s), vec![(1, 2)]);
}

#[test]
fn in_file_search_stops_where_an_offset_falls_past_the_text() {
    // Dotted capital I takes two bytes and lowercases to three.
    let mut s = SearchState::new();
    s.query = "a".to_string();
    s.recompute_matches("\u{130}a");
    assert!(s.matches.is_empty());
    s.recompute_matches("a\u{130}");
    assert_eq!(ranges(&s), vec![(0, 1)]);
}

#[test]
fn debounce_fires_once_the_quiet_time_has_passed() {
    let mut g = GlobalSearch::new();
    assert!(!g.tick_debounce_at(Some(500)));
    g.mark_dirty();
    assert!(!g.tick_debounce_at(Some(149)));
    assert!(g.dirty);
    assert!(g.tick_debounce_at(Some(150)));
    assert!(!g.dirty);
    assert!(!g.tick_debounce_at(Some(150)));
    g.query = "a".to_string();
    assert!(!g.needs_files());
    g.query = "ab".to_string();
    assert!(g.needs_files());
}
