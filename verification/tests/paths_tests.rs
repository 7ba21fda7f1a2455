use slate::filetree::{file_paths_of, WalkEntry};
use slate::paths::{file_icon, is_text_file, language_for, same_text};
use slate::search::GlobalMatch;
use slate::ui::{centered, hit_row_parts, mode_label, scroll_offset};
use slate::app::{Area, Mode};

#[test]
fn text_files_by_extension() {
    assert!(is_text_file("/v/a.md"));
    assert!(is_text_file("/v/a.MD"));
    assert!(is_text_file("notes.txt"));
    assert!(is_text_file("run.sh"));
    assert!(is_text_file("README"));
    assert!(!is_text_file("image.png"));
    assert!(!is_text_file("main.rs"));
}

#[test]
fn icons_and_languages() {
    assert_eq!(file_icon("a.md"), "\u{f01bc} ");
    assert_eq!(file_icon("a.rs"), " ");
    assert_eq!(file_icon("a"), " ");
    assert_eq!(language_for("x.rs"), "rust");
    assert_eq!(language_for("x.md"), "markdown");
    assert_eq!(language_for("x.yml"), "yaml");
    assert_eq!(language_for("x.sh"), "bash");
    assert_eq!(language_for("x.csv"), "text");
    assert_eq!(language_for("Makefile"), "text");
}

#[test]
fn same_text_compares_characters() {
    assert!(same_text("ab", "ab"));
    assert!(!same_text("ab", "abc"));
    assert!(!same_text("ab", "aB"));
}

#[test]
fn only_regular_files_are_collected() {
    let e = |p: &str, f: Option<bool>| WalkEntry {
        path: p.to_string(),
        name: p.to_string(),
        is_dir: f.map(|x| !x),
        is_file: f,
        depth: 1,
    };
    let got = file_paths_of(vec![e("d", Some(false)), e("a.md", Some(true)), e("x", None), e("b.txt", Some(true))]);
    assert_eq!(got, vec!["a.md".to_string(), "b.txt".to_string()]);
}

#[test]
fn ui_geometry() {
    assert_eq!(scroll_offset(3, 10), 0);
    assert_eq!(scroll_offset(10, 10), 1);
    assert_eq!(scroll_offset(15, 4), 12);
    let a = Area { x: 0, y: 0, width: 100, height: 40 };
    assert_eq!(centered(a, 60, 20), Area { x: 20, y: 10, width: 60, height: 20 });
    assert_eq!(centered(a, 200, 50), Area { x: 0, y: 0, width: 200, height: 50 });
    assert!(a.contains(0, 0));
    assert!(!a.contains(100, 5));
    assert_eq!(mode_label(Mode::SidePanel), " TREE   ");
}

fn hit(line: &str, col_start: usize, col_end: usize) -> GlobalMatch {
    GlobalMatch { path: "/v/a.md".to_string(), line_no: 0, line_text: line.to_string(), col_start, col_end }
}

#[test]
fn vault_hit_rows_keep_twenty_before_and_forty_after() {
    let (b, m, a) = hit_row_parts(&hit("hello world", 6, 9));
    assert_eq!((b.as_str(), m.as_str(), a.as_str()), ("hello ", "wor", "ld"));
    let line = format!("{}KEY{}", "x".repeat(30), "y".repeat(50));
    let (b, m, a) = hit_row_parts(&hit(&line, 30, 33));
    assert_eq!(b, "x".repeat(20));
    assert_eq!(m, "KEY");
    assert_eq!(a, "y".repeat(40));
    let (b, m, a) = hit_row_parts(&hit("short", 3, 9));
    assert_eq!((b.as_str(), m.as_str(), a.as_str()), ("sho", "rt", ""));
}

#[test]
fn status_notes_are_written_in_decimal() {
    assert_eq!(slate::ui::count_label(7), "7");
    assert_eq!(slate::ui::count_label(199), "199");
    assert_eq!(slate::ui::count_label(200), "200+");
    assert_eq!(slate::text::decimal(0), "0");
    assert_eq!(slate::text::decimal(1024), "1024");
}

#[test]
fn vault_hit_labels_and_cuts() {
    let m = GlobalMatch { path: "/v/notes.md".to_string(), line_no: 6, line_text: "x".to_string(), col_start: 0, col_end: 1 };
    assert_eq!(slate::ui::hit_label(&m), format!("  {:20} {:4}  ", "notes.md", 7));
    assert!(slate::ui::hit_row_cuts_fit(&m));
    let bad = GlobalMatch { path: "/v/a.md".to_string(), line_no: 0, line_text: "\u{e9}".to_string(), col_start: 1, col_end: 2 };
    assert!(!slate::ui::hit_row_cuts_fit(&bad));
}
