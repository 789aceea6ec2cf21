use dotmatrix::backup::{
    archive_file_name, archive_member_name, commit_message, commit_outcome, decide_incremental,
    decimal_text, partition_by_mode, record_archived, record_incremental, record_scan, BackupTally,
    ChangeKind, CommitOutcome,
};
use dotmatrix::config::{default_backup_mode, expand_path, BackupMode, Config, TrackedPattern};
use dotmatrix::index::{FileEntry, Index};
use dotmatrix::status::{classify, compute_status, listed, orphaned_paths, remove_orphans, DiskState, FileStatus};
use dotmatrix::store::{content_hash, get_file_storage_path, BlobSet};

fn entry(path: &str, hash: &str, size: u64, mtime: u64) -> FileEntry {
    FileEntry { path: path.to_string(), hash: hash.to_string(), last_modified: mtime, size }
}

fn on_disk(size: u64, mtime: u64, hash: &str) -> DiskState {
    DiskState { exists: true, size: Some(size), mtime, hash: Some(hash.to_string()) }
}

fn missing() -> DiskState {
    DiskState { exists: false, size: None, mtime: 0, hash: None }
}

fn index_with(entries: &[FileEntry]) -> Index {
    let mut index = Index::new();
    for e in entries {
        index.add_file(e.path.clone(), e.clone());
    }
    index
}

#[test]
fn scenario_unchanged() {
    let index = index_with(&[entry("/h/A", "h1", 10, 100)]);
    let r = compute_status(&index, &vec![("/h/A".to_string(), on_disk(10, 100, "h1"))], &vec![], false);
    assert_eq!(r.len(), 1);
    assert_eq!(r[0].status, FileStatus::Unchanged);
}

#[test]
fn scenario_modified_sizes_reported() {
    let index = index_with(&[entry("/h/A", "h1", 10, 100)]);
    let r = compute_status(&index, &vec![("/h/A".to_string(), on_disk(12, 200, "h2"))], &vec![], false);
    assert_eq!(r[0].status, FileStatus::Modified);
    assert_eq!(r[0].current_size, Some(12));
    assert_eq!(r[0].backup_size, Some(10));
}

#[test]
fn scenario_deleted() {
    let index = index_with(&[entry("/h/A", "h1", 10, 100)]);
    // missing from the scan
    let r = compute_status(&index, &vec![], &vec![], false);
    assert_eq!(r.len(), 1);
    assert_eq!(r[0].status, FileStatus::Deleted);
    assert_eq!(r[0].backup_size, Some(10));
    // or found missing when looked at
    let r = compute_status(&index, &vec![("/h/A".to_string(), missing())], &vec![], false);
    assert_eq!(r[0].status, FileStatus::Deleted);
    assert_eq!(r[0].current_size, None);
}

#[test]
fn scenario_new() {
    let index = index_with(&[entry("/h/A", "h1", 10, 100)]);
    let scanned = vec![("/h/A".to_string(), on_disk(10, 100, "h1")), ("/h/B".to_string(), on_disk(5, 7, "h3"))];
    let r = compute_status(&index, &scanned, &vec![], false);
    assert_eq!(r.len(), 2);
    assert_eq!(r[0].path, "/h/A");
    assert_eq!(r[1].path, "/h/B");
    assert_eq!(r[1].status, FileStatus::New);
    assert_eq!(r[1].backup_size, None);
    assert_eq!(r[1].current_size, Some(5));
}

#[test]
fn status_is_sorted_and_repeatable() {
    let index = index_with(&[entry("/h/z", "1", 1, 1), entry("/h/a-b", "2", 1, 1), entry("/h/a/b", "3", 1, 1)]);
    let scanned = vec![("/h/m".to_string(), on_disk(1, 1, "4")), ("/h/z".to_string(), on_disk(1, 1, "1"))];
    let r1 = compute_status(&index, &scanned, &vec![], false);
    let r2 = compute_status(&index, &scanned, &vec![], false);
    let p1: Vec<_> = r1.iter().map(|e| (e.path.clone(), e.status)).collect();
    let p2: Vec<_> = r2.iter().map(|e| (e.path.clone(), e.status)).collect();
    assert_eq!(p1, p2);
    let paths: Vec<_> = r1.iter().map(|e| e.path.as_str()).collect();
    assert_eq!(paths, vec!["/h/a/b", "/h/a-b", "/h/m", "/h/z"]);
}

#[test]
fn quick_mode_misses_same_size_and_mtime() {
    let e = entry("/h/A", "h1", 10, 100);
    let disk = on_disk(10, 100, "h2");
    assert_eq!(classify("/h/A", Some(&e), &disk, true).status, FileStatus::Unchanged);
    assert_eq!(classify("/h/A", Some(&e), &disk, false).status, FileStatus::Modified);
    // quick mode sees a new mtime
    assert_eq!(classify("/h/A", Some(&e), &on_disk(10, 101, "h1"), true).status, FileStatus::Modified);
    // full mode: an unreadable file differs
    let unreadable = DiskState { exists: true, size: Some(10), mtime: 100, hash: None };
    assert_eq!(classify("/h/A", Some(&e), &unreadable, false).status, FileStatus::Modified);
}

#[test]
fn status_symbols() {
    assert_eq!(FileStatus::Unchanged.symbol(), " ");
    assert_eq!(FileStatus::Modified.symbol(), "M");
    assert_eq!(FileStatus::New.symbol(), "+");
    assert_eq!(FileStatus::Deleted.symbol(), "-");
    assert_eq!(FileStatus::Untracked.symbol(), "?");
}

#[test]
fn orphans_are_flagged_and_only_index_entries_go() {
    let mut index = index_with(&[entry("/h/a", "1", 1, 1), entry("/h/b", "2", 1, 1)]);
    let current = vec!["/h/a".to_string()];
    let orphans = orphaned_paths(&index, &current);
    assert_eq!(orphans, vec!["/h/b".to_string()]);
    remove_orphans(&mut index, &orphans);
    assert!(index.get_file("/h/b").is_none());
    assert_eq!(index.get_file("/h/a").unwrap().hash, "1");
    assert!(listed(&current, "/h/a"));
    assert!(!listed(&current, "/h/b"));
}

/// Runs one incremental backup over `files`, as the command does with every
/// blob write succeeding; gives the tally.
fn run(index: &mut Index, store: &mut BlobSet, files: &[FileEntry]) -> BackupTally {
    let mut tally = BackupTally::default();
    for f in files {
        let d = decide_incremental(index, store, &f.path, f);
        record_incremental(index, store, &mut tally, f.path.clone(), f.clone(), d);
    }
    tally
}

#[test]
fn second_backup_without_change_does_nothing() {
    let files = vec![entry("/h/a", "aa11", 1, 1), entry("/h/b", "bb22", 2, 2)];
    let mut index = Index::new();
    let mut store = BlobSet::new();
    let first = run(&mut index, &mut store, &files);
    assert_eq!((first.backed_up, first.unchanged, first.copied), (2, 0, 2));
    let second = run(&mut index, &mut store, &files);
    assert_eq!((second.backed_up, second.unchanged, second.copied), (0, 2, 0));
}

#[test]
fn identical_content_is_stored_once() {
    let files = vec![entry("/h/a", "same", 1, 1), entry("/h/b", "same", 1, 5)];
    let mut index = Index::new();
    let mut store = BlobSet::new();
    let t = run(&mut index, &mut store, &files);
    assert_eq!(t.backed_up, 2);
    assert_eq!(t.copied, 1);
    assert_eq!(index.get_file("/h/a").unwrap().hash, index.get_file("/h/b").unwrap().hash);
    assert!(store.contains("same"));
}

#[test]
fn change_is_judged_against_the_index_not_the_store() {
    let mut index = index_with(&[entry("/h/a", "old", 1, 1)]);
    let mut store = BlobSet::new();
    store.insert("new".to_string());
    let d = decide_incremental(&index, &store, "/h/a", &entry("/h/a", "new", 1, 2));
    assert_eq!(d.change, ChangeKind::Updated);
    assert!(!d.needs_copy);
    assert_eq!(record_scan(&mut index, "/h/c".to_string(), entry("/h/c", "c", 1, 1)), ChangeKind::New);
    assert_eq!(record_scan(&mut index, "/h/c".to_string(), entry("/h/c", "c", 1, 1)), ChangeKind::Unchanged);
    assert_eq!(record_scan(&mut index, "/h/c".to_string(), entry("/h/c", "d", 1, 1)), ChangeKind::Updated);
}

#[test]
fn archive_records_and_names() {
    let mut index = Index::new();
    let mut tally = BackupTally::default();
    record_archived(&mut index, &mut tally, "/h/x".to_string(), entry("/h/x", "xx", 3, 3));
    assert_eq!(tally.backed_up, 1);
    assert_eq!(index.get_file("/h/x").unwrap().size, 3);
    assert_eq!(archive_member_name("//home/a/.bashrc"), "home/a/.bashrc");
    assert_eq!(archive_file_name("2024-01-02-030405"), "backup-2024-01-02-030405.tar.gz");
    tally.record_error();
    assert_eq!(tally.errors, 1);
}

#[test]
fn partition_keeps_order() {
    let mut config = Config::default();
    config.tracked_files = vec![
        TrackedPattern::simple("/h/*"),
        TrackedPattern::WithOptions { path: "/h/big*".to_string(), mode: Some(BackupMode::Archive) },
    ];
    let files = vec!["/h/a".to_string(), "/h/big1".to_string(), "/h/c".to_string(), "/h/big2".to_string()];
    let p = partition_by_mode(&files, &config, None);
    assert_eq!(p.incremental, vec!["/h/a", "/h/c"]);
    assert_eq!(p.archive, vec!["/h/big1", "/h/big2"]);
}

#[test]
fn messages_and_numbers() {
    assert_eq!(decimal_text(0), "0");
    assert_eq!(decimal_text(7), "7");
    assert_eq!(decimal_text(1234567890), "1234567890");
    assert_eq!(decimal_text(u64::MAX), u64::MAX.to_string());
    assert_eq!(commit_message(None, 12), "Backup: 12 files");
    assert_eq!(commit_message(Some("mine".to_string()), 12), "mine");
    assert_eq!(commit_message(Some(String::new()), 3), "Backup: 3 files");
    assert_eq!(commit_outcome(true, "", ""), CommitOutcome::Committed);
    assert_eq!(commit_outcome(false, "On branch main\nnothing to commit, working tree clean", ""), CommitOutcome::NothingToCommit);
    assert_eq!(commit_outcome(false, "", "fatal: bad"), CommitOutcome::Failed);
}

#[test]
fn content_store_names_and_places() {
    assert_eq!(content_hash(b"abc"), "ba7816bf8f01cfea414140de5dae2223b00361a396177a9cb410ff61f20015ad");
    assert_eq!(content_hash(b""), "e3b0c44298fc1c149afbf4c8996fb92427ae41e4649b934ca495991b7852b855");
    let h = content_hash(b"abc");
    assert_eq!(get_file_storage_path("/data/storage", &h), format!("/data/storage/ba/{}", h));
    assert_eq!(get_file_storage_path("/data/storage/", "abcd"), "/data/storage/ab/abcd");
}

#[test]
fn blob_set_membership() {
    let mut s = BlobSet::new();
    assert!(!s.contains("x"));
    s.insert("x".to_string());
    assert!(s.contains("x"));
    assert!(!s.contains("y"));
}

#[test]
fn index_operations() {
    let mut index = Index::new();
    assert!(index.is_empty());
    index.add_file("/b".to_string(), entry("/b", "1", 1, 1));
    index.add_file("/a".to_string(), entry("/a", "2", 1, 1));
    index.add_file("/b".to_string(), entry("/b", "3", 1, 1));
    assert_eq!(index.get_file("/b").unwrap().hash, "3");
    assert!(index.contains_file("/a"));
    assert_eq!(index.sorted_paths(), vec!["/a", "/b"]);
    let removed = index.remove_file("/a").unwrap();
    assert_eq!(removed.hash, "2");
    assert!(index.remove_file("/a").is_none());
    assert!(!index.is_empty());
}

#[test]
fn config_defaults_and_patterns() {
    let c = Config::default();
    assert!(c.git_enabled);
    assert_eq!(c.backup_mode, BackupMode::Incremental);
    assert_eq!(c.pattern_strings(), vec!["~/.bashrc", "~/.zshrc", "~/.gitconfig", "~/.config/dotmatrix/*"]);
    assert_eq!(c.exclude, vec!["**/*.log", "**/.DS_Store", "**/node_modules/**"]);
    assert_eq!(default_backup_mode(), BackupMode::Incremental);
    assert_eq!(BackupMode::Archive.as_str(), "archive");
    assert_eq!(BackupMode::Incremental.as_str(), "incremental");
    let p = TrackedPattern::WithOptions { path: "~/x".to_string(), mode: Some(BackupMode::Archive) };
    assert_eq!(p.display_text(), "~/x (archive)");
    assert_eq!(p.mode(), Some(BackupMode::Archive));
    assert_eq!(c.mode_for_pattern(&p), BackupMode::Archive);
    let q = TrackedPattern::simple("~/y");
    assert_eq!(q.display_text(), "~/y");
    assert_eq!(q.path(), "~/y");
    assert!(q.matches_path("~/y"));
    assert!(!q.matches_path("~/y2"));
    assert_eq!(c.mode_for_pattern(&q), BackupMode::Incremental);
    assert_eq!(expand_path("~", Some("/home/bob")), "/home/bob");
    assert_eq!(expand_path("~/d", Some("/home/bob")), "/home/bob/d");
    assert_eq!(expand_path("~/d", None), "~/d");
    assert_eq!(expand_path("/abs", Some("/home/bob")), "/abs");
    let mut c2 = c.clone();
    c2.data_dir = Some("~/dots".to_string());
    assert_eq!(c2.get_data_dir(Some("/home/bob")), Some("/home/bob/dots".to_string()));
    assert_eq!(c.get_data_dir(Some("/home/bob")), None);
}

#[test]
fn stored_content_comes_back_with_its_digest() {
    let content = b"export PATH=$HOME/bin:$PATH\n".to_vec();
    let recorded = content_hash(&content);
    let mut index = Index::new();
    let mut store = BlobSet::new();
    let e = entry("/h/.profile", &recorded, content.len() as u64, 1);
    let t = run(&mut index, &mut store, &[e]);
    assert_eq!(t.copied, 1);
    assert!(store.contains(&recorded));
    // the blob is copied back from where the store keeps it
    let blob_at = get_file_storage_path("/data/storage", &index.get_file("/h/.profile").unwrap().hash);
    assert!(blob_at.ends_with(&recorded));
    let restored = content.clone();
    assert_eq!(content_hash(&restored), recorded);
}

#[test]
fn untracked_file_still_on_disk_is_not_deleted() {
    let index = index_with(&[entry("/h/A", "h1", 10, 100), entry("/h/old", "h9", 4, 100)]);
    let scanned = vec![("/h/A".to_string(), on_disk(10, 100, "h1"))];
    // the pattern for /h/old was removed but the file is still there
    let elsewhere = vec![("/h/old".to_string(), on_disk(4, 100, "h9"))];
    let r = compute_status(&index, &scanned, &elsewhere, false);
    assert_eq!(r.len(), 1);
    assert_eq!(r[0].path, "/h/A");
    // gone from disk too: deleted
    let elsewhere = vec![("/h/old".to_string(), missing())];
    let r = compute_status(&index, &scanned, &elsewhere, false);
    assert_eq!(r.len(), 2);
    assert_eq!(r[1].path, "/h/old");
    assert_eq!(r[1].status, FileStatus::Deleted);
}
