use dotmatrix::config::BackupMode;
use dotmatrix::index::{FileEntry, Index};
use dotmatrix::restore::{
    answer_is_yes, build_comparison, confirmation_needed, count_conflicts, display_path, files_to_restore,
    parse_remap, remap_path, restore_action, safety_backup_dir, safety_copies, select_entries, snapshot_files,
    RestoreAction, RestoreBrowser, RestoreTally, RestoreView,
};
use dotmatrix::status::DiskState;
use dotmatrix::tui::{parse_commit_line, TuiMode};

fn entry(path: &str, hash: &str, size: u64, mtime: u64) -> FileEntry {
    FileEntry { path: path.to_string(), hash: hash.to_string(), last_modified: mtime, size }
}

#[test]
fn remap_arithmetic() {
    let rule = parse_remap("/home/alice=/home/bob").unwrap();
    assert_eq!(rule, ("/home/alice".to_string(), "/home/bob".to_string()));
    assert_eq!(remap_path("/home/alice/.bashrc", Some(&rule), None), "/home/bob/.bashrc");
    assert_eq!(remap_path("/home/alice/.bashrc", Some(&rule), Some("/tmp/out")), "/tmp/out/home/bob/.bashrc");
    // a path outside the prefix keeps its place
    assert_eq!(remap_path("/etc/hosts", Some(&rule), None), "/etc/hosts");
    assert_eq!(remap_path("/etc/hosts", None, Some("/tmp/out/")), "/tmp/out/etc/hosts");
}

#[test]
fn remap_parsing() {
    assert_eq!(parse_remap("a=b=c"), Some(("a".to_string(), "b=c".to_string())));
    assert_eq!(parse_remap("=x"), Some((String::new(), "x".to_string())));
    assert_eq!(parse_remap("no-rule"), None);
}

#[test]
fn conflict_needs_confirmation_and_a_safety_copy() {
    let e = entry("/h/a", "old", 4, 100);
    let newer = DiskState { exists: true, size: Some(5), mtime: 200, hash: Some("cur".to_string()) };
    let c = build_comparison(&e, "/h/a".to_string(), &newer);
    assert!(c.current_is_newer());
    assert!(!c.is_identical());
    let targets = files_to_restore(vec![c]);
    assert_eq!(count_conflicts(&targets), 1);
    assert!(confirmation_needed(&targets, false));
    assert!(!confirmation_needed(&targets, true));
    let copies = safety_copies(&targets, "/h/.dotmatrix-restore-backup-1");
    assert_eq!(copies.len(), 1);
    assert_eq!(copies[0].source, "/h/a");
    assert_eq!(copies[0].target, "/h/.dotmatrix-restore-backup-1/h/a");
}

#[test]
fn identical_and_missing_destinations() {
    let e = entry("/h/a", "same", 4, 100);
    let same = DiskState { exists: true, size: Some(4), mtime: 50, hash: Some("same".to_string()) };
    let gone = DiskState { exists: false, size: None, mtime: 0, hash: None };
    let c1 = build_comparison(&e, "/h/a".to_string(), &same);
    let c2 = build_comparison(&e, "/h/b".to_string(), &gone);
    assert!(c1.is_identical());
    assert!(!c2.is_identical());
    assert!(!c2.current_is_newer());
    let targets = files_to_restore(vec![c1, c2]);
    assert_eq!(targets.len(), 1);
    assert_eq!(targets[0].dest_path, "/h/b");
    // nothing exists there: no safety copy
    assert!(safety_copies(&targets, "/x").is_empty());
}

#[test]
fn backed_up_then_deleted_file_is_restored() {
    let mut index = Index::new();
    index.add_file("/h/a".to_string(), entry("/h/a", "abcd", 4, 100));
    let picked = select_entries(&index, None);
    assert_eq!(picked.len(), 1);
    let dest = remap_path(&picked[0].1.path, None, None);
    let gone = DiskState { exists: false, size: None, mtime: 0, hash: None };
    let c = build_comparison(&picked[0].1, dest, &gone);
    let targets = files_to_restore(vec![c]);
    assert_eq!(targets.len(), 1);
    assert_eq!(targets[0].dest_path, "/h/a");
    assert_eq!(targets[0].backup_hash, "abcd");
    assert_eq!(restore_action(true, BackupMode::Incremental), RestoreAction::Copy);
}

#[test]
fn file_filter_picks_by_substring() {
    let mut index = Index::new();
    index.add_file("/h/.zshrc".to_string(), entry("/h/.zshrc", "1", 1, 1));
    index.add_file("/h/.bashrc".to_string(), entry("/h/.bashrc", "2", 1, 1));
    index.add_file("/h/.vimrc".to_string(), entry("/h/.vimrc", "3", 1, 1));
    let filter = vec!["sh".to_string()];
    let picked = select_entries(&index, Some(&filter));
    let keys: Vec<_> = picked.iter().map(|p| p.0.as_str()).collect();
    assert_eq!(keys, vec!["/h/.bashrc", "/h/.zshrc"]);
    let none = vec!["nothing".to_string()];
    assert!(select_entries(&index, Some(&none)).is_empty());
}

#[test]
fn copy_phase_actions_and_counts() {
    assert_eq!(restore_action(false, BackupMode::Incremental), RestoreAction::MissingBlob);
    assert_eq!(restore_action(false, BackupMode::Archive), RestoreAction::ArchiveUnsupported);
    let mut t = RestoreTally::default();
    t.record(true);
    t.record(false);
    t.record(true);
    assert_eq!((t.restored, t.errors), (2, 1));
}

#[test]
fn paths_under_home_are_shortened() {
    assert_eq!(display_path("/home/bob/.bashrc", Some("/home/bob")), "~/.bashrc");
    assert_eq!(display_path("/home/bob/.bashrc", Some("/home/bob/")), "~/.bashrc");
    assert_eq!(display_path("/home/bobby/x", Some("/home/bob")), "/home/bobby/x");
    assert_eq!(display_path("/etc/x", None), "/etc/x");
    assert_eq!(safety_backup_dir(Some("/home/bob"), "20240102-030405"), Some("/home/bob/.dotmatrix-restore-backup-20240102-030405".to_string()));
    assert_eq!(safety_backup_dir(None, "x"), None);
}

#[test]
fn browser_moves_between_commits_and_files() {
    let mut b = RestoreBrowser::new(2);
    assert_eq!(b.view, RestoreView::Commits);
    assert_eq!(b.commit_to_load(2), Some(0));
    assert_eq!(b.commit_to_load(0), None);
    let mut index = Index::new();
    index.add_file("/h/b".to_string(), entry("/h/b", "1", 1, 1));
    index.add_file("/h/a".to_string(), entry("/h/a", "2", 2, 1));
    let disks = vec![
        ("/h/a".to_string(), DiskState { exists: true, size: Some(2), mtime: 1, hash: Some("2".to_string()) }),
        ("/h/b".to_string(), DiskState { exists: false, size: None, mtime: 0, hash: None }),
    ];
    let files = snapshot_files(&index, &disks, Some("/h"));
    assert_eq!(files.len(), 2);
    assert_eq!(files[0].path, "/h/a");
    assert_eq!(files[0].display_path, "~/a");
    assert!(!files[0].local_differs);
    assert!(files[1].local_differs);
    b.select_commit(0, files);
    assert_eq!(b.view, RestoreView::Files);
    assert_eq!(b.selected_commit, Some(0));
    assert_eq!(b.commit_to_load(2), None);
    b.back_to_commits(2);
    assert_eq!(b.view, RestoreView::Commits);
    assert_eq!(b.selected_commit, None);
    assert!(b.files.is_empty());
    assert_eq!(b.cursor, Some(0));
}

#[test]
fn yes_answers() {
    assert!(answer_is_yes(" Y \n"));
    assert!(answer_is_yes("yes"));
    assert!(answer_is_yes("YES\n"));
    assert!(!answer_is_yes("n"));
    assert!(!answer_is_yes("yess"));
    assert!(!answer_is_yes(""));
}

#[test]
fn history_lines_and_tabs() {
    let c = parse_commit_line("abc123|abc|Backup: 3 files|2024-01-02 03:04:05 +0000").unwrap();
    assert_eq!(c.hash, "abc123");
    assert_eq!(c.short_hash, "abc");
    assert_eq!(c.message, "Backup: 3 files");
    assert_eq!(c.date, "2024-01-02 03:04:05 +0000");
    let c = parse_commit_line("a|b|c|d|e").unwrap();
    assert_eq!(c.date, "d|e");
    assert!(parse_commit_line("a|b|c").is_none());
    assert_eq!(TuiMode::titles(), vec!["Tracked Files", "Add Files", "Restore"]);
    for i in 0..3 {
        assert_eq!(TuiMode::from_index(i).index(), i);
    }
    assert_eq!(TuiMode::from_index(9), TuiMode::Browse);
}

#[test]
fn snapshot_files_are_ordered_by_shown_path() {
    let mut index = Index::new();
    index.add_file("/h/a".to_string(), entry("/h/a", "1", 1, 1));
    index.add_file("/x/y".to_string(), entry("/x/y", "2", 1, 1));
    let files = snapshot_files(&index, &vec![], Some("/h"));
    let shown: Vec<_> = files.iter().map(|f| f.display_path.as_str()).collect();
    assert_eq!(shown, vec!["/x/y", "~/a"]);
    assert!(files.iter().all(|f| f.local_differs && !f.exists_locally));
}
