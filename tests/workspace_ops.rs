use workspace_fs::listing::{render_listing, DirEntry};
use workspace_fs::workspace::{removal_for, FsError, IoKind, NodeKind, Removal, Workspace};

fn ws(root: &str) -> Workspace {
    Workspace::new(root.to_string())
}

fn resolved(w: &Workspace, p: &str) -> String {
    match w.resolve(p) {
        Ok(t) => t,
        Err(e) => panic!("unexpected error: {}", e.message()),
    }
}

fn refused(w: &Workspace, p: &str) -> bool {
    matches!(w.resolve(p), Err(FsError::OutsideWorkspace))
}

#[test]
fn notes_scenario_write_then_read() {
    let w = ws("/ws");
    let plan = match w.plan_write("notes/todo.txt") {
        Ok(plan) => plan,
        Err(_) => panic!("write refused"),
    };
    assert_eq!(plan.parent, Some("/ws/notes".to_string()));
    assert_eq!(plan.target, "/ws/notes/todo.txt");
    assert_eq!(resolved(&w, "notes/todo.txt"), plan.target);
    assert!(refused(&w, "../etc/passwd"));
}

#[test]
fn parent_segments_that_leave_the_root_are_refused() {
    let w = ws("/ws");
    assert!(refused(&w, ".."));
    assert!(refused(&w, "a/../../x"));
    assert!(refused(&w, "a/b/../../../ws2/x"));
    assert!(matches!(w.plan_write("../x"), Err(FsError::OutsideWorkspace)));
    assert!(matches!(w.resolve_pair("a", "../b"), Err(FsError::OutsideWorkspace)));
    assert!(matches!(w.resolve_pair("../a", "b"), Err(FsError::OutsideWorkspace)));
}

#[test]
fn parent_segments_that_stay_inside_are_resolved() {
    let w = ws("/ws");
    assert_eq!(resolved(&w, "a/../b"), "/ws/b");
    assert_eq!(resolved(&w, "../ws/c"), "/ws/c");
    assert_eq!(resolved(&w, "./a//b/"), "/ws/a/b");
    assert_eq!(resolved(&w, ""), "/ws");
    assert_eq!(resolved(&w, "a/.."), "/ws");
}

#[test]
fn absolute_inputs_replace_the_root() {
    let w = ws("/ws");
    assert!(refused(&w, "/etc/passwd"));
    assert!(refused(&w, "/wsx"));
    assert_eq!(resolved(&w, "/ws/sub/f"), "/ws/sub/f");
}

#[test]
fn root_is_normalised_before_comparison() {
    let w = ws("/ws/./inner/");
    assert_eq!(resolved(&w, "f.txt"), "/ws/inner/f.txt");
    assert!(refused(&w, "../f.txt"));
    let top = ws("/");
    assert_eq!(resolved(&top, "../etc"), "/etc");
}

#[test]
fn relative_root_keeps_leading_parents() {
    let w = ws(".");
    assert_eq!(resolved(&w, "x"), "x");
    assert_eq!(resolved(&w, ""), ".");
    assert!(refused(&w, "../x"));
    assert!(refused(&w, "/x"));
    let up = ws("../w");
    assert_eq!(resolved(&up, "a"), "../w/a");
    assert!(refused(&up, "../../w/a"));
}

#[test]
fn write_plan_parents() {
    let w = ws("/ws");
    let plan = match w.plan_write("f.txt") {
        Ok(plan) => plan,
        Err(_) => panic!("write refused"),
    };
    assert_eq!(plan.parent, Some("/ws".to_string()));
    assert_eq!(plan.target, "/ws/f.txt");
    let top = ws("/");
    let root_plan = match top.plan_write("") {
        Ok(plan) => plan,
        Err(_) => panic!("write refused"),
    };
    assert_eq!(root_plan.parent, None);
    assert_eq!(root_plan.target, "/");
    let rel = ws("");
    let rel_plan = match rel.plan_write("a") {
        Ok(plan) => plan,
        Err(_) => panic!("write refused"),
    };
    assert_eq!(rel_plan.parent, Some(".".to_string()));
    assert_eq!(rel_plan.target, "a");
}

#[test]
fn create_dir_twice_targets_the_same_directory() {
    let w = ws("/ws");
    let first = resolved(&w, "docs/new");
    let second = resolved(&w, "docs/new");
    assert_eq!(first, "/ws/docs/new");
    assert_eq!(first, second);
}

#[test]
fn rename_resolves_both_ends() {
    let w = ws("/ws");
    match w.resolve_pair("a.txt", "sub/b.txt") {
        Ok((a, b)) => {
            assert_eq!(a, "/ws/a.txt");
            assert_eq!(b, "/ws/sub/b.txt");
        }
        Err(_) => panic!("rename refused"),
    }
}

#[test]
fn set_workspace_moves_resolution() {
    let mut w = ws("/old");
    assert_eq!(resolved(&w, "x"), "/old/x");
    assert!(!refused(&w, "/old/x"));
    w.set_root("/new/inner".to_string());
    assert_eq!(w.root(), "/new/inner");
    assert_eq!(resolved(&w, "x"), "/new/inner/x");
    assert!(refused(&w, "/old/x"));
    assert!(refused(&w, "../x"));
}

#[test]
fn set_workspace_accepts_any_value() {
    let mut w = ws("/ws");
    w.set_root("does/not/exist".to_string());
    assert_eq!(w.root(), "does/not/exist");
    assert_eq!(resolved(&w, "f"), "does/not/exist/f");
}

#[test]
fn listing_of_one_file_and_one_directory() {
    let entries = vec![
        DirEntry { name: "a.txt".to_string(), is_dir: false },
        DirEntry { name: "b".to_string(), is_dir: true },
    ];
    let listed = render_listing(&entries);
    assert_eq!(listed.len(), 2);
    assert_eq!(listed[0], "\u{1F4C1} b");
    assert_eq!(listed[1], "\u{1F4DD} a.txt");
    let mut expected = vec!["\u{1F4DD} a.txt".to_string(), "\u{1F4C1} b".to_string()];
    expected.sort();
    assert_eq!(listed, expected);
}

#[test]
fn listing_markers_differ_and_keep_the_name() {
    let dir = render_listing(&vec![DirEntry { name: "x".to_string(), is_dir: true }]);
    let file = render_listing(&vec![DirEntry { name: "x".to_string(), is_dir: false }]);
    assert_ne!(dir[0], file[0]);
    assert!(dir[0].ends_with(" x"));
    assert!(file[0].ends_with(" x"));
}

#[test]
fn listing_sorts_by_full_text() {
    let entries = vec![
        DirEntry { name: "zeta".to_string(), is_dir: false },
        DirEntry { name: "Beta".to_string(), is_dir: false },
        DirEntry { name: "alpha".to_string(), is_dir: false },
        DirEntry { name: "src".to_string(), is_dir: true },
        DirEntry { name: "caf\u{e9}".to_string(), is_dir: false },
        DirEntry { name: "al".to_string(), is_dir: false },
    ];
    let listed = render_listing(&entries);
    let mut expected: Vec<String> = vec![
        "\u{1F4DD} zeta".to_string(),
        "\u{1F4DD} Beta".to_string(),
        "\u{1F4DD} alpha".to_string(),
        "\u{1F4C1} src".to_string(),
        "\u{1F4DD} caf\u{e9}".to_string(),
        "\u{1F4DD} al".to_string(),
    ];
    expected.sort();
    assert_eq!(listed, expected);
    assert_eq!(listed[0], "\u{1F4C1} src");
    assert_eq!(listed[1], "\u{1F4DD} Beta");
}

#[test]
fn listing_of_empty_directory() {
    assert!(render_listing(&Vec::new()).is_empty());
}

#[test]
fn io_failures_map_to_kinds() {
    let e = FsError::from_io(IoKind::NotFound, "no such file".to_string());
    assert!(matches!(e, FsError::NotFound(_)));
    assert_eq!(e.message(), "no such file");
    assert!(matches!(
        FsError::from_io(IoKind::NotADirectory, "m".to_string()),
        FsError::NotADirectory(_)
    ));
    assert!(matches!(
        FsError::from_io(IoKind::IsADirectory, "m".to_string()),
        FsError::IsADirectory(_)
    ));
    assert!(matches!(FsError::from_io(IoKind::Other, "m".to_string()), FsError::Io(_)));
    assert_eq!(FsError::OutsideWorkspace.message(), "Path outside workspace");
}

#[test]
fn removal_follows_node_kind() {
    assert!(matches!(
        removal_for("/ws/d".to_string(), NodeKind::Directory),
        Removal::Tree(ref t) if t == "/ws/d"
    ));
    assert!(matches!(
        removal_for("/ws/f".to_string(), NodeKind::File),
        Removal::File(ref t) if t == "/ws/f"
    ));
}
