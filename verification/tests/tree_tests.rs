use slate::filetree::{sort_children, FileNode, FileTree, WalkEntry};

fn entry(path: &str, name: &str, is_dir: bool, depth: usize) -> WalkEntry {
    WalkEntry {
        path: path.to_string(),
        name: name.to_string(),
        is_dir: Some(is_dir),
        is_file: Some(!is_dir),
        depth,
    }
}

fn node(path: &str, is_dir: bool, depth: usize, expanded: bool) -> FileNode {
    let name = path.rsplit('/').next().unwrap().to_string();
    FileNode { path: path.to_string(), name, is_dir, depth, expanded }
}

fn tree(flat: Vec<FileNode>, selected: usize) -> FileTree {
    FileTree { root: "/v".to_string(), flat, selected }
}

fn shape(t: &FileTree) -> Vec<(String, usize, bool)> {
    t.flat.iter().map(|n| (n.path.clone(), n.depth, n.expanded)).collect()
}

#[test]
fn children_sort_directories_first_then_by_name() {
    let raw = vec![
        entry("/v", "v", true, 0),
        entry("/v/b.md", "b.md", false, 1),
        entry("/v/zdir", "zdir", true, 1),
        entry("/v/A.md", "A.md", false, 1),
        entry("/v/adir", "adir", true, 1),
    ];
    let names: Vec<String> = sort_children(raw).into_iter().map(|e| e.name).collect();
    assert_eq!(names, vec!["adir", "zdir", "A.md", "b.md"]);
}

#[test]
fn expanding_inserts_sorted_children_below() {
    let mut t = tree(vec![node("/v/d", true, 0, false), node("/v/z.md", false, 0, false)], 0);
    t.expand_selected(vec![
        entry("/v/d", "d", true, 0),
        entry("/v/d/y.md", "y.md", false, 1),
        entry("/v/d/sub", "sub", true, 1),
    ]);
    assert_eq!(
        shape(&t),
        vec![
            ("/v/d".to_string(), 0, true),
            ("/v/d/sub".to_string(), 1, false),
            ("/v/d/y.md".to_string(), 1, false),
            ("/v/z.md".to_string(), 0, false),
        ]
    );
}

#[test]
fn collapsing_removes_the_whole_subtree() {
    let mut t = tree(
        vec![
            node("/v/d", true, 0, true),
            node("/v/d/e", true, 1, true),
            node("/v/d/e/f.md", false, 2, false),
            node("/v/d/g.md", false, 1, false),
            node("/v/h.md", false, 0, false),
        ],
        0,
    );
    t.toggle_expand();
    assert_eq!(shape(&t), vec![("/v/d".to_string(), 0, false), ("/v/h.md".to_string(), 0, false)]);
}

#[test]
fn collapse_after_expand_restores_the_tree() {
    let nodes = vec![node("/v/d", true, 0, false), node("/v/z.md", false, 0, false)];
    let mut t = tree(nodes, 0);
    let before = shape(&t);
    t.expand_selected(vec![entry("/v/d/a.md", "a.md", false, 1)]);
    assert_eq!(t.flat.len(), 3);
    t.toggle_expand();
    assert_eq!(shape(&t), before);
}

#[test]
fn toggling_a_file_does_nothing() {
    let mut t = tree(vec![node("/v/a.md", false, 0, false)], 0);
    t.toggle_expand();
    assert_eq!(shape(&t), vec![("/v/a.md".to_string(), 0, false)]);
}

#[test]
fn collapse_or_parent_goes_to_the_folder() {
    let mut t = tree(
        vec![
            node("/v/d", true, 0, true),
            node("/v/d/a.md", false, 1, false),
            node("/v/d/b.md", false, 1, false),
        ],
        2,
    );
    t.collapse_or_parent();
    assert_eq!(t.selected, 0);
    assert_eq!(t.flat.len(), 3);
    t.collapse_or_parent();
    assert_eq!(t.selected, 0);
    assert_eq!(shape(&t), vec![("/v/d".to_string(), 0, false)]);
    t.collapse_or_parent();
    assert_eq!(t.selected, 0);
}

#[test]
fn moving_stops_at_the_ends() {
    let mut t = tree(vec![node("/v/a", false, 0, false), node("/v/b", false, 0, false)], 0);
    t.move_up();
    assert_eq!(t.selected, 0);
    t.move_down();
    assert_eq!(t.selected, 1);
    assert_eq!(t.selected_path().unwrap(), "/v/b");
    t.move_down();
    assert_eq!(t.selected, 1);
    t.move_up();
    assert_eq!(t.selected, 0);
}

#[test]
fn a_missing_root_lists_nothing() {
    let t = FileTree::new("/this/path/does/not/exist/anywhere").unwrap();
    assert!(t.flat.is_empty());
    assert_eq!(t.selected, 0);
    assert!(t.selected_path().is_none());
}
