use anduin::git::diff::{ChangedFile, FileStatus};
use anduin::tree::{expand_parent_dirs, PathSet, SidebarRow, TreeDir};

fn make_file(path: &str) -> ChangedFile {
    ChangedFile {
        path: path.to_owned(),
        status: FileStatus::Modified,
        staged: false,
        unstaged: true,
    }
}

#[test]
fn collapse_single_child_chain() {
    let mut root = TreeDir::root();
    let file = make_file("a/b/c/file.txt");
    root.insert_file(0, &file);
    root.sort_files_recursive();
    root.collapse_single_child_dirs();

    assert_eq!(root.dirs.len(), 1);
    let collapsed = &root.dirs[0];
    assert_eq!(collapsed.name, "a/b/c");
    assert_eq!(collapsed.path, "a/b/c");
    assert_eq!(collapsed.files.len(), 1);
    assert_eq!(collapsed.files[0].name, "file.txt");
    assert!(collapsed.dirs.is_empty());
}

#[test]
fn no_collapse_when_multiple_children() {
    let mut root = TreeDir::root();
    root.insert_file(0, &make_file("src/main.rs"));
    root.insert_file(1, &make_file("src/lib.rs"));
    root.insert_file(2, &make_file("src/utils/helper.rs"));
    root.sort_files_recursive();
    root.collapse_single_child_dirs();

    let src = root.dir("src").unwrap();
    assert_eq!(src.name, "src");
    assert_eq!(src.files.len(), 2);
    assert_eq!(src.dirs.len(), 1);
}

#[test]
fn partial_collapse() {
    let mut root = TreeDir::root();
    root.insert_file(0, &make_file("a/b/c/file1.txt"));
    root.insert_file(1, &make_file("a/b/d/file2.txt"));
    root.sort_files_recursive();
    root.collapse_single_child_dirs();

    let ab = &root.dirs[0];
    assert_eq!(ab.name, "a/b");
    assert_eq!(ab.path, "a/b");
    assert_eq!(ab.dirs.len(), 2);
}

#[test]
fn collapse_preserves_expanded_dir_paths() {
    let mut root = TreeDir::root();
    root.insert_file(0, &make_file("internal/api/handlers/management/handler.go"));
    root.sort_files_recursive();
    root.collapse_single_child_dirs();

    let collapsed = &root.dirs[0];
    assert_eq!(collapsed.name, "internal/api/handlers/management");
    assert_eq!(collapsed.path, "internal/api/handlers/management");
}

#[test]
fn collapse_does_not_merge_dir_with_files() {
    let mut root = TreeDir::root();
    root.insert_file(0, &make_file("a/readme.md"));
    root.insert_file(1, &make_file("a/b/deep.txt"));
    root.sort_files_recursive();
    root.collapse_single_child_dirs();

    let a = root.dir("a").unwrap();
    assert_eq!(a.name, "a");
    assert_eq!(a.dirs.len(), 1);
    assert_eq!(a.files.len(), 1);
}

#[test]
fn inserted_directories_keep_name_order() {
    let mut root = TreeDir::root();
    root.insert_file(0, &make_file("zeta/x"));
    root.insert_file(1, &make_file("alpha/y"));
    root.insert_file(2, &make_file("mid/z"));
    root.insert_file(3, &make_file("alpha/w"));
    let names: Vec<&str> = root.dirs.iter().map(|d| d.name.as_str()).collect();
    assert_eq!(names, vec!["alpha", "mid", "zeta"]);
    assert_eq!(root.dir("alpha").unwrap().files.len(), 2);
    assert_eq!(root.dir("alpha").unwrap().files[1].index, 3);
    assert!(root.dir("beta").is_none());
}

#[test]
fn sorting_orders_files_by_name_stably() {
    let mut root = TreeDir::root();
    root.insert_file(0, &make_file("b.txt"));
    root.insert_file(1, &make_file("a.txt"));
    root.insert_file(2, &make_file("d/c"));
    root.insert_file(3, &make_file("d/a"));
    root.sort_files_recursive();
    let names: Vec<&str> = root.files.iter().map(|f| f.name.as_str()).collect();
    assert_eq!(names, vec!["a.txt", "b.txt"]);
    let d = root.dir("d").unwrap();
    assert_eq!(d.files[0].name, "a");
    assert_eq!(d.files[0].index, 3);
}

#[test]
fn collect_dir_paths_lists_directories_before_their_children() {
    let mut root = TreeDir::root();
    root.insert_file(0, &make_file("a/b/f"));
    root.insert_file(1, &make_file("a/g"));
    root.insert_file(2, &make_file("c/h"));
    let mut paths = vec!["x".to_owned()];
    root.collect_dir_paths(&mut paths);
    assert_eq!(paths, vec!["x", "a", "a/b", "c"]);
}

#[test]
fn visible_rows_follow_expanded_directories() {
    let mut root = TreeDir::root();
    root.insert_file(0, &make_file("src/main.rs"));
    root.insert_file(1, &make_file("README.md"));
    let mut expanded = PathSet::new();
    let mut rows = Vec::new();
    root.collect_visible_rows(&expanded, 1, &mut rows);
    assert_eq!(rows.len(), 2);
    match &rows[0] {
        SidebarRow::Dir { name, depth, expanded, .. } => {
            assert_eq!(name, "src");
            assert_eq!(*depth, 1);
            assert!(!expanded);
        }
        other => panic!("unexpected row {other:?}"),
    }
    expanded.insert("src".to_owned());
    let mut rows = Vec::new();
    root.collect_visible_rows(&expanded, 1, &mut rows);
    assert_eq!(rows.len(), 3);
    match &rows[1] {
        SidebarRow::File { name, index, depth, .. } => {
            assert_eq!(name, "main.rs");
            assert_eq!(*index, 0);
            assert_eq!(*depth, 2);
        }
        other => panic!("unexpected row {other:?}"),
    }
    match &rows[2] {
        SidebarRow::File { name, depth, .. } => {
            assert_eq!(name, "README.md");
            assert_eq!(*depth, 1);
        }
        other => panic!("unexpected row {other:?}"),
    }
}

#[test]
fn expand_parent_dirs_adds_every_ancestor() {
    let mut set = PathSet::new();
    expand_parent_dirs(&mut set, "a/b/c.txt");
    assert!(set.contains(&"a".to_owned()));
    assert!(set.contains(&"a/b".to_owned()));
    assert!(!set.contains(&"a/b/c.txt".to_owned()));
    let mut top = PathSet::new();
    expand_parent_dirs(&mut top, "file.txt");
    assert!(!top.contains(&"file.txt".to_owned()));
}

#[test]
fn path_set_insert_remove_and_filters() {
    let mut set = PathSet::from_paths(vec!["a".to_owned(), "a/b".to_owned(), "c".to_owned()]);
    set.remove(&"c".to_owned());
    assert!(!set.contains(&"c".to_owned()));
    set.remove_below(&"a".to_owned());
    assert!(set.contains(&"a".to_owned()));
    assert!(!set.contains(&"a/b".to_owned()));
    set.extend(vec!["d".to_owned(), "e".to_owned()]);
    set.retain_known(&vec!["a".to_owned(), "e".to_owned()]);
    assert!(set.contains(&"a".to_owned()));
    assert!(set.contains(&"e".to_owned()));
    assert!(!set.contains(&"d".to_owned()));
    set.clear();
    assert!(!set.contains(&"a".to_owned()));
}

#[test]
fn height_counts_directory_levels() {
    let mut root = TreeDir::root();
    root.insert_file(0, &make_file("a/b/c"));
    assert!(root.height_at_most(2));
    assert!(!root.height_at_most(1));
}

fn full_paths(dir: &TreeDir, out: &mut Vec<(usize, String)>) {
    for f in &dir.files {
        let p = if dir.path.is_empty() { f.name.clone() } else { format!("{}/{}", dir.path, f.name) };
        out.push((f.index, p));
    }
    for d in &dir.dirs {
        full_paths(d, out);
    }
}

fn check_paths_consistent(dir: &TreeDir) {
    for d in &dir.dirs {
        let expected = if dir.path.is_empty() { d.name.clone() } else { format!("{}/{}", dir.path, d.name) };
        assert_eq!(d.path, expected);
        check_paths_consistent(d);
    }
}

#[test]
fn collapse_keeps_every_file_and_its_full_path() {
    let paths = ["a/b/c/x.rs", "a/b/c/y.rs", "d/e.rs", "d/f/g/h.rs", "top.rs", "q/r/s/t/u.rs"];
    let mut root = TreeDir::root();
    for (i, p) in paths.iter().enumerate() {
        root.insert_file(i, &make_file(p));
    }
    root.sort_files_recursive();
    let mut before = Vec::new();
    full_paths(&root, &mut before);
    before.sort();
    let top_files: Vec<String> = root.files.iter().map(|f| f.name.clone()).collect();
    root.collapse_single_child_dirs();
    let mut after = Vec::new();
    full_paths(&root, &mut after);
    after.sort();
    assert_eq!(before, after);
    assert_eq!(root.files.iter().map(|f| f.name.clone()).collect::<Vec<_>>(), top_files);
    check_paths_consistent(&root);
    assert_eq!(root.dir("q/r/s/t").map(|d| d.path.clone()), Some("q/r/s/t".to_owned()));
}
