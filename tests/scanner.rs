use dotmatrix::scanner::{
    expand_tilde, get_file_mode, get_verbosity, is_excluded, literal_files, pattern_query, scan_patterns,
    PathKind, PatternQuery, RecursiveScanOptions, ScanError, Verbosity,
};
use dotmatrix::config::{BackupMode, Config, TrackedPattern};
use dotmatrix::{LocationError, Locations};

fn home_of(l: &Locations) -> Option<&str> {
    l.home()
}

#[test]
fn test_expand_tilde() {
    let loc = Locations::from_system();
    let result = expand_tilde("~/test.txt", home_of(&loc)).unwrap();
    assert!(result.contains("test.txt"));
    assert!(!result.contains("~"));
}

#[test]
fn test_expand_tilde_no_home() {
    let loc = Locations::from_system();
    let result = expand_tilde("/etc/test.txt", home_of(&loc)).unwrap();
    assert_eq!(result, "/etc/test.txt".to_string());
}

#[test]
fn test_is_excluded() {
    let exclude = vec!["**/*.log".to_string(), "**/.DS_Store".to_string()];
    let loc = Locations::from_system();

    assert!(is_excluded("/home/user/test.log", &exclude, home_of(&loc)));
    assert!(is_excluded("/home/user/.DS_Store", &exclude, home_of(&loc)));
    assert!(!is_excluded("/home/user/test.txt", &exclude, home_of(&loc)));
}

#[test]
fn expand_tilde_with_given_home() {
    assert_eq!(expand_tilde("~/x/y", Some("/home/bob")).unwrap(), "/home/bob/x/y");
    assert_eq!(expand_tilde("~/x", Some("/home/bob/")).unwrap(), "/home/bob/x");
    assert_eq!(expand_tilde("~/x", None), Err(LocationError::NoHomeDir));
    assert_eq!(expand_tilde("rel/x", None).unwrap(), "rel/x");
}

#[test]
fn exclude_pattern_with_tilde() {
    let exclude = vec!["~/secret/*".to_string()];
    assert!(is_excluded("/home/bob/secret/key", &exclude, Some("/home/bob")));
    assert!(!is_excluded("/home/bob/public/key", &exclude, Some("/home/bob")));
    // an invalid pattern matches nothing
    let bad = vec!["[".to_string()];
    assert!(!is_excluded("[", &bad, None));
}

#[test]
fn later_patterns_override_earlier_ones() {
    let mut config = Config::default();
    config.tracked_files = vec![
        TrackedPattern::WithOptions { path: "/home/bob/.config/**/*".to_string(), mode: Some(BackupMode::Archive) },
        TrackedPattern::WithOptions { path: "/home/bob/.config/nvim/*".to_string(), mode: Some(BackupMode::Incremental) },
    ];
    config.backup_mode = BackupMode::Archive;
    assert_eq!(get_file_mode("/home/bob/.config/nvim/init.lua", &config, None), BackupMode::Incremental);
    assert_eq!(get_file_mode("/home/bob/.config/kitty/kitty.conf", &config, None), BackupMode::Archive);
    // no pattern: the default
    config.backup_mode = BackupMode::Incremental;
    assert_eq!(get_file_mode("/etc/hosts", &config, None), BackupMode::Incremental);
    // a bare pattern takes the default mode
    config.tracked_files.push(TrackedPattern::simple("/home/bob/.config/kitty/*"));
    assert_eq!(get_file_mode("/home/bob/.config/kitty/kitty.conf", &config, None), BackupMode::Incremental);
}

#[test]
fn pattern_queries() {
    assert_eq!(pattern_query("/etc/hosts", None).unwrap(), PatternQuery::Literal("/etc/hosts".to_string()));
    assert_eq!(pattern_query("~/.config/nvim/**", Some("/home/bob")).unwrap(), PatternQuery::Glob("/home/bob/.config/nvim/**/*".to_string()));
    assert_eq!(pattern_query("/etc/*.conf", None).unwrap(), PatternQuery::Glob("/etc/*.conf".to_string()));
    assert_eq!(pattern_query("~/.bashrc", None), Err(ScanError::NoHomeDir("~/.bashrc".to_string())));
}

#[test]
fn literal_pattern_outcomes() {
    assert_eq!(literal_files("/a", PathKind::File, false).unwrap(), vec!["/a".to_string()]);
    assert!(literal_files("/a", PathKind::File, true).unwrap().is_empty());
    assert_eq!(literal_files("/a", PathKind::Missing, false), Err(ScanError::NotFound("/a".to_string())));
    let e = literal_files("/d", PathKind::Directory, false).unwrap_err();
    assert_eq!(e, ScanError::IsDirectory("/d".to_string()));
    assert_eq!(e.message(), "Path is a directory: /d. Use '/d/**' to track directory contents.");
    assert_eq!(ScanError::NotFound("/x".to_string()).message(), "File not found: /x");
}

#[test]
fn scan_patterns_merges_sorts_and_dedups() {
    let patterns = vec!["a".to_string(), "b".to_string(), "c".to_string()];
    let outcomes = vec![
        Ok(vec!["/home/b/z".to_string(), "/home/b/a".to_string()]),
        Err(ScanError::NotFound("/nope".to_string())),
        Ok(vec!["/home/b/a".to_string(), "/home/b-x".to_string(), "/home/b/m/n".to_string()]),
    ];
    let report = scan_patterns(&patterns, outcomes);
    // the separator sorts before every other character
    assert_eq!(report.files, vec!["/home/b/a", "/home/b/m/n", "/home/b/z", "/home/b-x"]);
    assert_eq!(report.errors.len(), 1);
    assert_eq!(report.errors[0].0, "b");
}

#[test]
fn verbosity_from_flag_count() {
    assert_eq!(get_verbosity(0), Verbosity::Normal);
    assert_eq!(get_verbosity(1), Verbosity::Verbose);
    assert_eq!(get_verbosity(2), Verbosity::Debug);
    assert_eq!(get_verbosity(200), Verbosity::Debug);
}

#[test]
fn recursive_scan_option_builders() {
    let o = RecursiveScanOptions::new();
    assert!(o.respect_gitignore && o.max_depth.is_none() && o.additional_excludes.is_empty());
    let o = o.with_max_depth(3).with_excludes(vec!["*.tmp".to_string()]).with_gitignore(false);
    assert_eq!(o.max_depth, Some(3));
    assert_eq!(o.additional_excludes, vec!["*.tmp".to_string()]);
    assert!(!o.respect_gitignore);
}
