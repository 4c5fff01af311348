use anduin::git::cli::{
    ensure_success, git_commit_args, git_commit_files_args, git_diff_commit_file_args, git_diff_file_args,
    git_diff_file_next, git_log_args, git_show_commit_file_args, git_stage_all, git_stage_paths,
    git_switch_branch, git_unstage_all, git_unstage_paths, is_index_changed, is_worktree_changed,
    parse_branch_list, parse_commit_files, parse_log_output, parse_porcelain_status, parse_status_output,
    trimmed_output, DiffFileProgress, DiffFileStep, git_commit_file_diff_args, git_commit_file_diff_next,
    CommitFileDiffProgress, CommitFileDiffStep,
};
use anduin::git::diff::{get_changed_files, parse_unified_diff, ChangedFile, FileStatus};

fn paths(v: &[&str]) -> Vec<String> {
    v.iter().map(|s| s.to_string()).collect()
}

#[test]
fn porcelain_columns_give_status_and_stages() {
    assert_eq!(parse_porcelain_status('?', '?'), FileStatus::Untracked);
    assert_eq!(parse_porcelain_status('R', ' '), FileStatus::Renamed);
    assert_eq!(parse_porcelain_status(' ', 'A'), FileStatus::Added);
    assert_eq!(parse_porcelain_status('D', ' '), FileStatus::Deleted);
    assert_eq!(parse_porcelain_status(' ', 'T'), FileStatus::Modified);
    assert_eq!(parse_porcelain_status('U', 'U'), FileStatus::Other);
    assert!(is_index_changed('M', ' '));
    assert!(!is_index_changed('?', '?'));
    assert!(!is_index_changed(' ', 'M'));
    assert!(is_worktree_changed('?', '?'));
    assert!(is_worktree_changed(' ', 'M'));
    assert!(!is_worktree_changed('M', ' '));
}

#[test]
fn status_output_lists_entries_and_takes_renamed_path() {
    let out = "M  src/a.rs\n?? new.txt\nR  old.rs -> new.rs\nxy\n";
    let files = parse_status_output(out);
    assert_eq!(files.len(), 3);
    assert_eq!(files[0].path, "src/a.rs");
    assert_eq!(files[0].status, FileStatus::Modified);
    assert!(files[0].staged && !files[0].unstaged);
    assert_eq!(files[1].status, FileStatus::Untracked);
    assert!(!files[1].staged && files[1].unstaged);
    assert_eq!(files[2].path, "new.rs");
    assert_eq!(files[2].status, FileStatus::Renamed);
}

#[test]
fn changed_files_are_sorted_by_path_and_deduplicated() {
    let out = " M z.rs\nM  a.rs\n M a.rs\n?? m.rs\n";
    let files = get_changed_files(out);
    let names: Vec<&str> = files.iter().map(|f| f.path.as_str()).collect();
    assert_eq!(names, vec!["a.rs", "m.rs", "z.rs"]);
    assert!(files[0].staged);
}

#[test]
fn changed_file_flags_and_status_symbols() {
    let f = ChangedFile { path: "x".to_owned(), status: FileStatus::Added, staged: true, unstaged: false };
    assert!(f.is_staged());
    assert!(!f.is_unstaged());
    assert_eq!(FileStatus::Added.symbol(), 'A');
    assert_eq!(FileStatus::Untracked.symbol(), '?');
    assert_eq!(FileStatus::Other.symbol(), '!');
}

#[test]
fn unified_diff_keeps_text_with_tabs_expanded() {
    let d = parse_unified_diff("+\tx\n-a", "f.rs", FileStatus::Modified);
    assert_eq!(d.path, "f.rs");
    assert_eq!(d.raw_patch, "+    x\n-a");
}

#[test]
fn branch_list_trims_and_skips_blank_lines() {
    assert_eq!(parse_branch_list("  main\n\nfeature/x  \n"), vec!["main", "feature/x"]);
    assert_eq!(trimmed_output("  main\n"), "main");
}

#[test]
fn log_output_splits_at_nul_bytes() {
    let out = "abc\0Ann\02 days ago\0Fix: a\0b\nbad line\n";
    let entries = parse_log_output(out);
    assert_eq!(entries.len(), 1);
    assert_eq!(entries[0].0, "abc");
    assert_eq!(entries[0].1, "Ann");
    assert_eq!(entries[0].2, "2 days ago");
    assert_eq!(entries[0].3, "Fix: a\0b");
}

#[test]
fn commit_files_take_status_char_and_path() {
    let entries = parse_commit_files("M\tsrc/main.rs\n\nA\tnew.rs\n");
    assert_eq!(entries, vec![('M', "src/main.rs".to_owned()), ('A', "new.rs".to_owned())]);
}

#[test]
fn failure_prefers_stderr_then_stdout_then_status() {
    assert_eq!(ensure_success(true, "", "", "git x", "1"), Ok(()));
    assert_eq!(ensure_success(false, "out", " err \n", "git x", "1"), Err("err".to_owned()));
    assert_eq!(ensure_success(false, " out ", "  ", "git x", "1"), Err("out".to_owned()));
    assert_eq!(
        ensure_success(false, "", "", "git add", "exit status: 1"),
        Err("git add exited with status exit status: 1".to_owned())
    );
}

#[test]
fn stage_and_unstage_arguments() {
    assert_eq!(git_stage_paths(&[]), None);
    assert_eq!(git_stage_paths(&paths(&["a", "b"])), Some(paths(&["add", "--", "a", "b"])));
    assert_eq!(git_stage_all(), paths(&["add", "--all", "--", "."]));
    assert_eq!(git_unstage_paths(&paths(&["a"]), true), Some(paths(&["restore", "--staged", "--", "a"])));
    assert_eq!(git_unstage_paths(&paths(&["a"]), false), Some(paths(&["rm", "--cached", "--", "a"])));
    assert_eq!(git_unstage_paths(&[], true), None);
    assert_eq!(git_unstage_all(true), paths(&["restore", "--staged", "--", "."]));
    assert_eq!(git_unstage_all(false), paths(&["rm", "--cached", "-r", "--", "."]));
    assert_eq!(git_switch_branch("dev"), paths(&["switch", "dev"]));
}

#[test]
fn diff_steps_fall_back_in_order() {
    assert_eq!(git_diff_file_args(DiffFileStep::Head, "f", "/dev/null"), paths(&["diff", "HEAD", "--", "f"]));
    assert_eq!(
        git_diff_file_args(DiffFileStep::NoIndex, "f", "/dev/null"),
        paths(&["diff", "--no-index", "--", "/dev/null", "f"])
    );
    assert!(matches!(
        git_diff_file_next(DiffFileStep::Head, false, "x".to_owned()),
        DiffFileProgress::Run(DiffFileStep::Cached)
    ));
    assert!(matches!(
        git_diff_file_next(DiffFileStep::Cached, true, String::new()),
        DiffFileProgress::Run(DiffFileStep::NoIndex)
    ));
    match git_diff_file_next(DiffFileStep::Head, true, "d".to_owned()) {
        DiffFileProgress::Done(d) => assert_eq!(d, "d"),
        other => panic!("unexpected {other:?}"),
    }
}

#[test]
fn log_commit_and_show_arguments() {
    assert_eq!(
        git_log_args(50, 100),
        paths(&["log", "--format=%H%x00%an%x00%ar%x00%s", "-n50", "--skip=100"])
    );
    assert_eq!(git_diff_commit_file_args("abc", "f"), paths(&["diff", "abc^..abc", "--", "f"]));
    assert_eq!(git_show_commit_file_args("abc", "f"), paths(&["show", "--format=", "abc", "--", "f"]));
    assert_eq!(git_commit_args("msg"), paths(&["commit", "-m", "msg"]));
    assert_eq!(
        git_commit_files_args("abc"),
        paths(&["diff-tree", "--no-commit-id", "-r", "--name-status", "abc"])
    );
}

#[test]
fn commit_file_diff_uses_the_parent_diff_when_it_succeeds() {
    assert_eq!(
        git_commit_file_diff_args(CommitFileDiffStep::ParentDiff, "abc", "src/a.rs"),
        paths(&["diff", "abc^..abc", "--", "src/a.rs"])
    );
    match git_commit_file_diff_next(CommitFileDiffStep::ParentDiff, true, "+x\n".to_owned(), "", "exit status: 0") {
        CommitFileDiffProgress::Done(Ok(d)) => assert_eq!(d, "+x\n"),
        other => panic!("unexpected {:?}", other),
    }
}

#[test]
fn commit_file_diff_falls_back_to_show_for_a_root_commit() {
    assert!(matches!(
        git_commit_file_diff_next(CommitFileDiffStep::ParentDiff, false, String::new(), "bad revision", "exit status: 128"),
        CommitFileDiffProgress::Run(CommitFileDiffStep::Show)
    ));
    assert_eq!(
        git_commit_file_diff_args(CommitFileDiffStep::Show, "abc", "src/a.rs"),
        paths(&["show", "--format=", "abc", "--", "src/a.rs"])
    );
    match git_commit_file_diff_next(CommitFileDiffStep::Show, true, "+y\n".to_owned(), "", "exit status: 0") {
        CommitFileDiffProgress::Done(Ok(d)) => assert_eq!(d, "+y\n"),
        other => panic!("unexpected {:?}", other),
    }
    match git_commit_file_diff_next(CommitFileDiffStep::Show, false, String::new(), "", "exit status: 128") {
        CommitFileDiffProgress::Done(Err(e)) => {
            assert_eq!(e, "git show (initial commit fallback) exited with status exit status: 128")
        }
        other => panic!("unexpected {:?}", other),
    }
    match git_commit_file_diff_next(CommitFileDiffStep::Show, false, String::new(), " fatal: bad object \n", "x") {
        CommitFileDiffProgress::Done(Err(e)) => assert_eq!(e, "fatal: bad object"),
        other => panic!("unexpected {:?}", other),
    }
}
