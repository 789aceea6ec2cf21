//! Resolving tracked patterns into files. Walking the disk is the caller's
//! part; what is decided about the paths it finds stands here.
use crate::config::{tilde_dir, BackupMode, Config, TrackedPattern};
use crate::paths::{
    insert_sorted, is_prefix, lemma_contains_push, join_path, join_spec, opt_text, same_text, strictly_sorted, texts,
};
use crate::LocationError;
use vstd::prelude::*;

verus! {

/// Options for a recursive directory scan.
#[derive(Clone, Debug, Default)]
pub struct RecursiveScanOptions {
    /// How deep to recurse; `None` is unlimited.
    pub max_depth: Option<usize>,
    /// Further glob patterns to exclude.
    pub additional_excludes: Vec<String>,
    /// Whether `.gitignore` files are respected.
    pub respect_gitignore: bool,
}

impl RecursiveScanOptions {
    pub fn new() -> (r: RecursiveScanOptions)
        ensures
            r.max_depth is None,
            r.additional_excludes@.len() == 0,
            r.respect_gitignore,
    {
        RecursiveScanOptions { max_depth: None, additional_excludes: Vec::new(), respect_gitignore: true }
    }

    pub fn with_max_depth(self, depth: usize) -> (r: RecursiveScanOptions)
        ensures
            r.max_depth == Some(depth),
            r.additional_excludes == self.additional_excludes,
            r.respect_gitignore == self.respect_gitignore,
    {
        RecursiveScanOptions { max_depth: Some(depth), ..self }
    }

    pub fn with_excludes(self, excludes: Vec<String>) -> (r: RecursiveScanOptions)
        ensures
            r.max_depth == self.max_depth,
            r.additional_excludes == excludes,
            r.respect_gitignore == self.respect_gitignore,
    {
        RecursiveScanOptions { additional_excludes: excludes, ..self }
    }

    pub fn with_gitignore(self, respect: bool) -> (r: RecursiveScanOptions)
        ensures
            r.max_depth == self.max_depth,
            r.additional_excludes == self.additional_excludes,
            r.respect_gitignore == respect,
    {
        RecursiveScanOptions { respect_gitignore: respect, ..self }
    }
}

/// What a recursive directory scan found.
#[derive(Clone, Debug, Default)]
pub struct RecursiveScanResult {
    /// Files to track, in the order of paths.
    pub files: Vec<String>,
    pub directories_scanned: usize,
    /// Files that `.gitignore` rules left out.
    pub gitignore_excluded: usize,
    /// Files that exclude patterns left out.
    pub config_excluded: usize,
    /// (path, message) of each entry that could not be read.
    pub errors: Vec<(String, String)>,
}

/// How much a scan reports.
#[derive(Clone, Copy, Debug, PartialEq, Eq, Structural, PartialOrd, Ord, Default)]
pub enum Verbosity {
    Quiet,
    #[default]
    Normal,
    Verbose,
    Debug,
}

/// The verbosity that `count` repetitions of the verbose flag ask for.
pub fn get_verbosity(count: u8) -> (r: Verbosity)
    ensures
        r == (if count == 0 {
            Verbosity::Normal
        } else if count == 1 {
            Verbosity::Verbose
        } else {
            Verbosity::Debug
        }),
{
    match count {
        0 => Verbosity::Normal,
        1 => Verbosity::Verbose,
        _ => Verbosity::Debug,
    }
}

/// What `glob::Pattern::new(pattern)` and then `matches(text)` give: `None`
/// where the pattern does not compile.
pub uninterp spec fn glob_outcome(pattern: Seq<char>, text: Seq<char>) -> Option<bool>;

/// Relies on glob::Pattern::new, to compile the pattern, and on
/// glob::Pattern::matches, to match `text` against it.
#[verifier::external_body]
fn glob_match(pattern: &str, text: &str) -> (r: Option<bool>)
    ensures
        r == glob_outcome(pattern@, text@),
{
    glob::Pattern::new(pattern).ok().map(|p| p.matches(text))
}

/// `pattern` with a leading `~/` resolved against `home`, where it is known.
pub open spec fn tilde_spec(pattern: Seq<char>, home: Option<Seq<char>>) -> Seq<char> {
    match home {
        Some(h) => if is_prefix(tilde_dir(), pattern) {
            join_spec(h, pattern.subrange(2, pattern.len() as int))
        } else {
            pattern
        },
        None => pattern,
    }
}

fn starts_with_tilde_dir(p: &str) -> (r: bool)
    ensures
        r == is_prefix(tilde_dir(), p@),
{
    let n = p.unicode_len();
    if n >= 2 && p.get_char(0) == '~' && p.get_char(1) == '/' {
        assert(p@.subrange(0, 2) =~= tilde_dir());
        true
    } else {
        proof {
            if is_prefix(tilde_dir(), p@) {
                assert(p@.subrange(0, 2)[0] == p@[0]);
                assert(p@.subrange(0, 2)[1] == p@[1]);
            }
        }
        false
    }
}

fn resolve_tilde(pattern: &str, home: Option<&str>) -> (r: String)
    ensures
        r@ == tilde_spec(pattern@, opt_text(home)),
{
    match home {
        Some(h) => if starts_with_tilde_dir(pattern) {
            let n = pattern.unicode_len();
            join_path(h, pattern.substring_char(2, n))
        } else {
            String::from_str(pattern)
        },
        None => String::from_str(pattern),
    }
}

/// Expands a leading `~/` to the home directory; fails where it is needed
/// and unknown.
pub fn expand_tilde(path: &str, home: Option<&str>) -> (r: Result<String, LocationError>)
    ensures
        is_prefix(tilde_dir(), path@) && home is None ==> r == Err::<String, LocationError>(
            LocationError::NoHomeDir,
        ),
        !(is_prefix(tilde_dir(), path@) && home is None) ==> (r matches Ok(x) && x@ == tilde_spec(
            path@,
            opt_text(home),
        )),
{
    if starts_with_tilde_dir(path) && home.is_none() {
        Err(LocationError::NoHomeDir)
    } else {
        Ok(resolve_tilde(path, home))
    }
}

pub open spec fn excluded_by(path: Seq<char>, pattern: Seq<char>, home: Option<Seq<char>>) -> bool {
    glob_outcome(tilde_spec(pattern, home), path) == Some(true)
}

/// Whether some exclude pattern (with `~/` expanded) matches `path`.
pub open spec fn is_excluded_spec(
    path: Seq<char>,
    excludes: Seq<String>,
    home: Option<Seq<char>>,
) -> bool {
    exists|i: int| 0 <= i < excludes.len() && excluded_by(path, #[trigger] excludes[i]@, home)
}

/// Whether some exclude pattern matches `path`; a pattern that does not
/// compile matches nothing.
pub fn is_excluded(path: &str, exclude_patterns: &[String], home: Option<&str>) -> (r: bool)
    ensures
        r == is_excluded_spec(path@, exclude_patterns@, opt_text(home)),
{
    let n = exclude_patterns.len();
    let mut i: usize = 0;
    while i < n
        invariant
            n == exclude_patterns@.len(),
            i <= n,
            forall|k: int|
                0 <= k < i ==> !excluded_by(path@, #[trigger] exclude_patterns@[k]@, opt_text(home)),
        decreases n - i,
    {
        let expanded = resolve_tilde(exclude_patterns[i].as_str(), home);
        if glob_match(expanded.as_str(), path) == Some(true) {
            return true;
        }
        i = i + 1;
    }
    false
}

/// Whether `file` falls under `pattern`: by glob, or, where the pattern does
/// not compile, by equal text.
pub open spec fn path_matches_spec(file: Seq<char>, pattern: Seq<char>, home: Option<Seq<char>>) -> bool {
    let p = tilde_spec(pattern, home);
    match glob_outcome(p, file) {
        Some(b) => b,
        None => file == p,
    }
}

/// Whether `file` falls under `pattern` (see `path_matches_spec`).
pub fn path_matches_pattern(file: &str, pattern: &str, home: Option<&str>) -> (r: bool)
    ensures
        r == path_matches_spec(file@, pattern@, opt_text(home)),
{
    let p = resolve_tilde(pattern, home);
    match glob_match(p.as_str(), file) {
        Some(b) => b,
        None => same_text(file, p.as_str()),
    }
}

/// The mode of `file`: that of the last declared pattern it falls under, or
/// the default. Later patterns override earlier ones.
pub open spec fn file_mode_spec(
    file: Seq<char>,
    patterns: Seq<TrackedPattern>,
    default: BackupMode,
    home: Option<Seq<char>>,
) -> BackupMode
    decreases patterns.len(),
{
    if patterns.len() == 0 {
        default
    } else if path_matches_spec(file, patterns.last().path_spec(), home) {
        match patterns.last().mode_spec() {
            Some(m) => m,
            None => default,
        }
    } else {
        file_mode_spec(file, patterns.drop_last(), default, home)
    }
}

/// The effective backup mode of `file` under `config`.
pub fn get_file_mode(file: &str, config: &Config, home: Option<&str>) -> (r: BackupMode)
    ensures
        r == file_mode_spec(file@, config.tracked_files@, config.backup_mode, opt_text(home)),
{
    let mut i: usize = config.tracked_files.len();
    assert(config.tracked_files@.subrange(0, i as int) =~= config.tracked_files@);
    while i > 0
        invariant
            i <= config.tracked_files@.len(),
            file_mode_spec(file@, config.tracked_files@, config.backup_mode, opt_text(home))
                == file_mode_spec(
                file@,
                config.tracked_files@.subrange(0, i as int),
                config.backup_mode,
                opt_text(home),
            ),
        decreases i,
    {
        let ghost sub = config.tracked_files@.subrange(0, i as int);
        assert(sub.last() == config.tracked_files@[i - 1]);
        assert(sub.drop_last() =~= config.tracked_files@.subrange(0, i - 1));
        let pattern = &config.tracked_files[i - 1];
        if path_matches_pattern(file, pattern.path(), home) {
            return config.mode_for_pattern(pattern);
        }
        i = i - 1;
    }
    config.backup_mode
}

/// Why a pattern yielded no files.
#[derive(Clone, Debug, PartialEq, Eq)]
pub enum ScanError {
    /// A `~/` pattern with no home directory known.
    NoHomeDir(String),
    /// A literal path that does not exist.
    NotFound(String),
    /// A literal path naming a directory (`dir/**` tracks its contents).
    IsDirectory(String),
    /// A glob pattern that does not compile.
    InvalidPattern(String),
}

impl ScanError {
    /// An equal copy.
    pub fn duplicate(&self) -> (r: ScanError)
        ensures
            r == *self,
    {
        match self {
            ScanError::NoHomeDir(p) => ScanError::NoHomeDir(p.clone()),
            ScanError::NotFound(p) => ScanError::NotFound(p.clone()),
            ScanError::IsDirectory(p) => ScanError::IsDirectory(p.clone()),
            ScanError::InvalidPattern(p) => ScanError::InvalidPattern(p.clone()),
        }
    }

    pub open spec fn message_spec(&self) -> Seq<char> {
        match self {
            ScanError::NoHomeDir(p) => "Could not find home directory for "@ + p@,
            ScanError::NotFound(p) => "File not found: "@ + p@,
            ScanError::IsDirectory(p) => "Path is a directory: "@ + p@ + ". Use '"@ + p@
                + "/**' to track directory contents."@,
            ScanError::InvalidPattern(p) => "Invalid glob pattern: "@ + p@,
        }
    }

    /// The error in words.
    pub fn message(&self) -> (r: String)
        ensures
            r@ == self.message_spec(),
    {
        match self {
            ScanError::NoHomeDir(p) => String::from_str("Could not find home directory for ").concat(
                p.as_str(),
            ),
            ScanError::NotFound(p) => String::from_str("File not found: ").concat(p.as_str()),
            ScanError::IsDirectory(p) => String::from_str("Path is a directory: ").concat(
                p.as_str(),
            ).concat(". Use '").concat(p.as_str()).concat("/**' to track directory contents."),
            ScanError::InvalidPattern(p) => String::from_str("Invalid glob pattern: ").concat(
                p.as_str(),
            ),
        }
    }
}

/// How a pattern is resolved on disk.
#[derive(Clone, Debug, PartialEq, Eq)]
pub enum PatternQuery {
    /// A path without glob characters, looked up as it stands.
    Literal(String),
    /// A glob to walk.
    Glob(String),
}

pub open spec fn has_glob_chars(s: Seq<char>) -> bool {
    exists|i: int| 0 <= i < s.len() && (s[i] == '*' || s[i] == '?' || s[i] == '[')
}

pub open spec fn ends_with(s: Seq<char>, suffix: Seq<char>) -> bool {
    suffix.len() <= s.len() && s.subrange(s.len() - suffix.len(), s.len() as int) == suffix
}

/// The text to resolve for a pattern: a trailing `/**` gets `/*` added, so
/// that it names the files inside.
pub open spec fn query_text_spec(expanded: Seq<char>) -> Seq<char> {
    if ends_with(expanded, "/**"@) {
        expanded + "/*"@
    } else {
        expanded
    }
}

pub open spec fn query_spec(expanded: Seq<char>) -> PatternQueryView {
    let t = query_text_spec(expanded);
    if has_glob_chars(t) {
        PatternQueryView::Glob(t)
    } else {
        PatternQueryView::Literal(t)
    }
}

pub ghost enum PatternQueryView {
    Literal(Seq<char>),
    Glob(Seq<char>),
}

impl View for PatternQuery {
    type V = PatternQueryView;

    open spec fn view(&self) -> PatternQueryView {
        match self {
            PatternQuery::Literal(s) => PatternQueryView::Literal(s@),
            PatternQuery::Glob(s) => PatternQueryView::Glob(s@),
        }
    }
}

fn has_glob_chars_exec(s: &str) -> (r: bool)
    ensures
        r == has_glob_chars(s@),
{
    let n = s.unicode_len();
    let mut i: usize = 0;
    while i < n
        invariant
            n == s@.len(),
            i <= n,
            forall|k: int| 0 <= k < i ==> !(s@[k] == '*' || s@[k] == '?' || s@[k] == '['),
        decreases n - i,
    {
        let c = s.get_char(i);
        if c == '*' || c == '?' || c == '[' {
            return true;
        }
        i = i + 1;
    }
    false
}

fn ends_with_glob_dir(s: &str) -> (r: bool)
    ensures
        r == ends_with(s@, "/**"@),
{
    proof {
        reveal_strlit("/**");
    }
    let n = s.unicode_len();
    if n < 3 {
        return false;
    }
    let r = s.get_char(n - 3) == '/' && s.get_char(n - 2) == '*' && s.get_char(n - 1) == '*';
    let ghost tail = s@.subrange(n - 3, n as int);
    assert(tail[0] == s@[n - 3] && tail[1] == s@[n - 2] && tail[2] == s@[n - 1]);
    if r {
        assert(tail =~= "/**"@);
    }
    r
}

/// How to resolve `pattern` on disk, with `~/` expanded against `home`.
pub fn pattern_query(pattern: &str, home: Option<&str>) -> (r: Result<PatternQuery, ScanError>)
    ensures
        is_prefix(tilde_dir(), pattern@) && home is None ==> (r matches Err(ScanError::NoHomeDir(p))
            && p@ == pattern@),
        !(is_prefix(tilde_dir(), pattern@) && home is None) ==> (r matches Ok(q) && q@ == query_spec(
            tilde_spec(pattern@, opt_text(home)),
        )),
{
    match expand_tilde(pattern, home) {
        Err(_) => Err(ScanError::NoHomeDir(String::from_str(pattern))),
        Ok(expanded) => {
            let text = if ends_with_glob_dir(expanded.as_str()) {
                proof {
                    reveal_strlit("/*");
                }
                expanded.concat("/*")
            } else {
                expanded
            };
            if has_glob_chars_exec(text.as_str()) {
                Ok(PatternQuery::Glob(text))
            } else {
                Ok(PatternQuery::Literal(text))
            }
        },
    }
}

/// What a path on disk is.
#[derive(Clone, Copy, Debug, PartialEq, Eq, Structural)]
pub enum PathKind {
    Missing,
    File,
    Directory,
    /// Exists, and is neither a regular file nor a directory.
    Other,
}

pub open spec fn literal_spec(path: Seq<char>, kind: PathKind, excluded: bool) -> Result<
    Seq<Seq<char>>,
    ScanErrorKind,
> {
    match kind {
        PathKind::Missing => Err(ScanErrorKind::NotFound),
        PathKind::Directory => Err(ScanErrorKind::IsDirectory),
        PathKind::File => if excluded {
            Ok(Seq::empty())
        } else {
            Ok(seq![path])
        },
        PathKind::Other => Ok(Seq::empty()),
    }
}

pub ghost enum ScanErrorKind {
    NoHomeDir,
    NotFound,
    IsDirectory,
    InvalidPattern,
}

pub open spec fn error_kind(e: ScanError) -> ScanErrorKind {
    match e {
        ScanError::NoHomeDir(_) => ScanErrorKind::NoHomeDir,
        ScanError::NotFound(_) => ScanErrorKind::NotFound,
        ScanError::IsDirectory(_) => ScanErrorKind::IsDirectory,
        ScanError::InvalidPattern(_) => ScanErrorKind::InvalidPattern,
    }
}

/// The files that a literal pattern yields, given what `path` is on disk and
/// whether an exclude pattern matches it.
pub fn literal_files(path: &str, kind: PathKind, excluded: bool) -> (r: Result<
    Vec<String>,
    ScanError,
>)
    ensures
        match r {
            Ok(v) => literal_spec(path@, kind, excluded) == Ok::<Seq<Seq<char>>, ScanErrorKind>(
                texts(v@),
            ),
            Err(e) => literal_spec(path@, kind, excluded) == Err::<Seq<Seq<char>>, ScanErrorKind>(
                error_kind(e),
            ) && (e matches ScanError::NotFound(p) ==> p@ == path@) && (e matches ScanError::IsDirectory(
                p,
            ) ==> p@ == path@),
        },
{
    match kind {
        PathKind::Missing => Err(ScanError::NotFound(String::from_str(path))),
        PathKind::Directory => Err(ScanError::IsDirectory(String::from_str(path))),
        PathKind::File => {
            let mut v: Vec<String> = Vec::new();
            if !excluded {
                v.push(String::from_str(path));
                assert(texts(v@) =~= seq![path@]);
            } else {
                assert(texts(v@) =~= Seq::<Seq<char>>::empty());
            }
            Ok(v)
        },
        PathKind::Other => {
            let v: Vec<String> = Vec::new();
            assert(texts(v@) =~= Seq::<Seq<char>>::empty());
            Ok(v)
        },
    }
}

/// Of the paths that a glob walk found, those that are regular files and
/// that no exclude pattern matches, in the order found.
pub fn glob_files(found: &Vec<(String, bool)>, exclude_patterns: &[String], home: Option<&str>) -> (r:
    Vec<String>)
    ensures
        texts(r@) == found@.filter(|e: (String, bool)| e.1 && !is_excluded_spec(
            e.0@,
            exclude_patterns@,
            opt_text(home),
        )).map_values(|e: (String, bool)| e.0@),
{
    let ghost keep = |e: (String, bool)| e.1 && !is_excluded_spec(e.0@, exclude_patterns@, opt_text(home));
    let ghost proj = |e: (String, bool)| e.0@;
    let mut out: Vec<String> = Vec::new();
    let n = found.len();
    let mut i: usize = 0;
    while i < n
        invariant
            n == found@.len(),
            i <= n,
            texts(out@) == found@.subrange(0, i as int).filter(keep).map_values(proj),
            keep == (|e: (String, bool)| e.1 && !is_excluded_spec(e.0@, exclude_patterns@, opt_text(home))),
            proj == (|e: (String, bool)| e.0@),
        decreases n - i,
    {
        let ghost prev = found@.subrange(0, i as int);
        assert(found@.subrange(0, i + 1) =~= prev.push(found@[i as int]));
        proof {
            prev.lemma_filter_push(found@[i as int], keep);
        }
        let ghost old_out = out@;
        if found[i].1 && !is_excluded(found[i].0.as_str(), exclude_patterns, home) {
            out.push(found[i].0.clone());
            let ghost x = found@[i as int];
            assert(keep(x));
            assert(found@.subrange(0, i + 1).filter(keep) == prev.filter(keep).push(x));
            assert(prev.filter(keep).push(x).map_values(proj) =~= prev.filter(keep).map_values(
                proj,
            ).push(proj(x)));
            assert(texts(out@) =~= texts(old_out).push(x.0@));
        } else {
            assert(found@.subrange(0, i + 1).filter(keep) == prev.filter(keep));
        }
        i = i + 1;
    }
    assert(found@.subrange(0, n as int) =~= found@);
    out
}

/// What resolving every pattern gave: the files, each once, in the order of
/// paths; and the errors, pattern by pattern.
pub struct ScanReport {
    pub files: Vec<String>,
    pub errors: Vec<(String, ScanError)>,
}

pub open spec fn ok_contains(o: Result<Vec<String>, ScanError>, p: Seq<char>) -> bool {
    match o {
        Ok(v) => texts(v@).contains(p),
        Err(_) => false,
    }
}

pub open spec fn found_by_some(outcomes: Seq<Result<Vec<String>, ScanError>>, p: Seq<char>) -> bool {
    exists|i: int| 0 <= i < outcomes.len() && ok_contains(#[trigger] outcomes[i], p)
}

/// The failed patterns, in order, each with its error.
pub open spec fn failures(patterns: Seq<String>, outcomes: Seq<Result<Vec<String>, ScanError>>) -> Seq<
    (Seq<char>, ScanError),
>
    decreases outcomes.len(),
{
    if outcomes.len() == 0 {
        Seq::empty()
    } else {
        let prev = failures(patterns, outcomes.drop_last());
        match outcomes.last() {
            Err(e) => prev.push((patterns[outcomes.len() - 1]@, e)),
            Ok(_) => prev,
        }
    }
}

pub open spec fn error_views(errors: Seq<(String, ScanError)>) -> Seq<(Seq<char>, ScanError)> {
    errors.map_values(|p: (String, ScanError)| (p.0@, p.1))
}

/// Merges what each pattern resolved to. A pattern that failed does not stop
/// the others: its error is kept, with the pattern, in the report.
pub fn scan_patterns(patterns: &[String], outcomes: Vec<Result<Vec<String>, ScanError>>) -> (r:
    ScanReport)
    requires
        patterns@.len() == outcomes@.len(),
    ensures
        strictly_sorted(texts(r.files@)),
        forall|p: Seq<char>| texts(r.files@).contains(p) <==> found_by_some(outcomes@, p),
        error_views(r.errors@) == failures(patterns@, outcomes@),
{
    let mut files: Vec<String> = Vec::new();
    let mut errors: Vec<(String, ScanError)> = Vec::new();
    let n = outcomes.len();
    let mut i: usize = 0;
    while i < n
        invariant
            n == outcomes@.len(),
            n == patterns@.len(),
            i <= n,
            strictly_sorted(texts(files@)),
            forall|p: Seq<char>| texts(files@).contains(p) <==> found_by_some(outcomes@.subrange(0, i as int), p),
            error_views(errors@) == failures(patterns@, outcomes@.subrange(0, i as int)),
        decreases n - i,
    {
        let ghost prev = outcomes@.subrange(0, i as int);
        let ghost next = outcomes@.subrange(0, i + 1);
        assert(next =~= prev.push(outcomes@[i as int]));
        assert(next.drop_last() =~= prev);
        match &outcomes[i] {
            Ok(v) => {
                let m = v.len();
                let mut j: usize = 0;
                while j < m
                    invariant
                        m == v@.len(),
                        j <= m,
                        outcomes@[i as int] == Ok::<Vec<String>, ScanError>(*v),
                        next == prev.push(outcomes@[i as int]),
                        strictly_sorted(texts(files@)),
                        forall|p: Seq<char>|
                            texts(files@).contains(p) <==> (found_by_some(prev, p) || texts(
                                v@.subrange(0, j as int),
                            ).contains(p)),
                    decreases m - j,
                {
                    let item = v[j].clone();
                    assert(item@ == v@[j as int]@);
                    let ghost before = texts(files@);
                    assert forall|p: Seq<char>| before.contains(p) <==> (found_by_some(prev, p) || texts(
                                v@.subrange(0, j as int),
                            ).contains(p)) by {}
                    insert_sorted(&mut files, item);
                    proof {
                        assert(texts(v@.subrange(0, j + 1)) =~= texts(v@.subrange(0, j as int)).push(
                            v@[j as int]@,
                        ));
                        assert forall|p: Seq<char>|
                            texts(files@).contains(p) <==> (found_by_some(prev, p) || texts(
                                v@.subrange(0, j + 1),
                            ).contains(p)) by {
                            lemma_contains_push(texts(v@.subrange(0, j as int)), v@[j as int]@, p);
                            assert(texts(files@).contains(p) <==> (before.contains(p) || p == v@[j as int]@));
                            assert(before.contains(p) <==> (found_by_some(prev, p) || texts(
                                v@.subrange(0, j as int),
                            ).contains(p)));
                        }
                    }
                    j = j + 1;
                }
                assert(v@.subrange(0, m as int) =~= v@);
                assert forall|p: Seq<char>| texts(files@).contains(p) <==> found_by_some(next, p) by {
                    if found_by_some(next, p) {
                        let k = choose|k: int|
                            0 <= k < next.len() && ok_contains(#[trigger] next[k], p);
                        if k < i {
                            assert(prev[k] == next[k]);
                        }
                    }
                    if found_by_some(prev, p) {
                        let k = choose|k: int|
                            0 <= k < prev.len() && ok_contains(#[trigger] prev[k], p);
                        assert(next[k] == prev[k]);
                    }
                    if texts(v@).contains(p) {
                        assert(next[i as int] == outcomes@[i as int]);
                    }
                }
            },
            Err(e) => {
                let ghost before = errors@;
                errors.push((patterns[i].clone(), e.duplicate()));
                assert(error_views(errors@) =~= error_views(before).push((patterns@[i as int]@, *e)));
                assert forall|p: Seq<char>| texts(files@).contains(p) <==> found_by_some(next, p) by {
                    if found_by_some(next, p) {
                        let k = choose|k: int|
                            0 <= k < next.len() && ok_contains(#[trigger] next[k], p);
                        if k < i {
                            assert(prev[k] == next[k]);
                        }
                    }
                    if found_by_some(prev, p) {
                        let k = choose|k: int|
                            0 <= k < prev.len() && ok_contains(#[trigger] prev[k], p);
                        assert(next[k] == prev[k]);
                    }
                }
            },
        }
        i = i + 1;
    }
    assert(outcomes@.subrange(0, n as int) =~= outcomes@);
    ScanReport { files, errors }
}

} // verus!
