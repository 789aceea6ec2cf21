//! Tracked patterns, backup modes and the configuration that holds them.
use crate::paths::{is_prefix, join_path, join_spec, opt_text, same_text};
use vstd::prelude::*;

verus! {

/// How a file is backed up.
#[derive(Clone, Copy, Debug, PartialEq, Eq, Structural, Default)]
pub enum BackupMode {
    /// Content-addressed and deduplicated.
    #[default]
    Incremental,
    /// One compressed, timestamped tarball per run.
    Archive,
}

pub open spec fn mode_name(m: BackupMode) -> Seq<char> {
    match m {
        BackupMode::Incremental => "incremental"@,
        BackupMode::Archive => "archive"@,
    }
}

impl BackupMode {
    pub fn as_str(&self) -> (r: &'static str)
        ensures
            r@ == mode_name(*self),
    {
        match self {
            BackupMode::Incremental => "incremental",
            BackupMode::Archive => "archive",
        }
    }
}

/// A tracked file pattern with optional per-pattern settings.
#[derive(Clone, Debug, PartialEq, Eq)]
pub enum TrackedPattern {
    /// A bare pattern: the default backup mode applies.
    Simple(String),
    /// A pattern with an explicit mode override.
    WithOptions { path: String, mode: Option<BackupMode> },
}

impl TrackedPattern {
    pub open spec fn path_spec(&self) -> Seq<char> {
        match self {
            TrackedPattern::Simple(p) => p@,
            TrackedPattern::WithOptions { path, .. } => path@,
        }
    }

    pub open spec fn mode_spec(&self) -> Option<BackupMode> {
        match self {
            TrackedPattern::Simple(_) => None,
            TrackedPattern::WithOptions { mode, .. } => *mode,
        }
    }

    /// A bare pattern.
    pub fn simple(path: &str) -> (r: TrackedPattern)
        ensures
            r is Simple,
            r.path_spec() == path@,
    {
        TrackedPattern::Simple(String::from_str(path))
    }

    /// The pattern text.
    pub fn path(&self) -> (r: &str)
        ensures
            r@ == self.path_spec(),
    {
        match self {
            TrackedPattern::Simple(p) => p.as_str(),
            TrackedPattern::WithOptions { path, .. } => path.as_str(),
        }
    }

    /// The mode override, if any.
    pub fn mode(&self) -> (r: Option<BackupMode>)
        ensures
            r == self.mode_spec(),
    {
        match self {
            TrackedPattern::Simple(_) => None,
            TrackedPattern::WithOptions { mode, .. } => *mode,
        }
    }

    /// Whether the pattern text is exactly `path`.
    pub fn matches_path(&self, path: &str) -> (r: bool)
        ensures
            r == (self.path_spec() == path@),
    {
        same_text(self.path(), path)
    }

    pub open spec fn display_spec(&self) -> Seq<char> {
        match self {
            TrackedPattern::Simple(p) => p@,
            TrackedPattern::WithOptions { path, mode } => match mode {
                Some(m) => path@ + " ("@ + mode_name(*m) + ")"@,
                None => path@,
            },
        }
    }

    /// The pattern as it is listed: its text, and its mode in parentheses
    /// where it overrides the default.
    pub fn display_text(&self) -> (r: String)
        ensures
            r@ == self.display_spec(),
    {
        match self {
            TrackedPattern::Simple(p) => p.clone(),
            TrackedPattern::WithOptions { path, mode } => match mode {
                Some(m) => path.clone().concat(" (").concat(m.as_str()).concat(")"),
                None => path.clone(),
            },
        }
    }
}

/// The mode that applies where no pattern overrides it.
pub fn default_backup_mode() -> (r: BackupMode)
    ensures
        r == BackupMode::Incremental,
{
    BackupMode::Incremental
}

#[derive(Clone, Debug)]
pub struct Config {
    /// A data directory of the user's choice; `None` means the system default.
    pub data_dir: Option<String>,
    pub git_enabled: bool,
    pub backup_mode: BackupMode,
    pub tracked_files: Vec<TrackedPattern>,
    pub exclude: Vec<String>,
}

pub open spec fn tilde_dir() -> Seq<char> {
    seq!['~', '/']
}

/// `path` with a leading `~` standing for the home directory, where it is known.
pub open spec fn expand_spec(path: Seq<char>, home: Option<Seq<char>>) -> Seq<char> {
    match home {
        Some(h) => if path == seq!['~'] {
            h
        } else if is_prefix(tilde_dir(), path) {
            join_spec(h, path.subrange(2, path.len() as int))
        } else {
            path
        },
        None => path,
    }
}

/// Expands `~` and `~/...` to the home directory `home`, where it is known.
pub fn expand_path(path: &str, home: Option<&str>) -> (r: String)
    ensures
        r@ == expand_spec(path@, opt_text(home)),
{
    match home {
        Some(h) => {
            let n = path.unicode_len();
            if n == 1 && path.get_char(0) == '~' {
                assert(path@ =~= seq!['~']);
                return String::from_str(h);
            }
            if n >= 2 && path.get_char(0) == '~' && path.get_char(1) == '/' {
                assert(path@.subrange(0, 2) =~= tilde_dir());
                return join_path(h, path.substring_char(2, n));
            }
            proof {
                if is_prefix(tilde_dir(), path@) {
                    assert(path@.subrange(0, 2)[0] == path@[0]);
                    assert(path@.subrange(0, 2)[1] == path@[1]);
                }
            }
            String::from_str(path)
        },
        None => String::from_str(path),
    }
}

pub open spec fn default_patterns() -> Seq<Seq<char>> {
    seq!["~/.bashrc"@, "~/.zshrc"@, "~/.gitconfig"@, "~/.config/dotmatrix/*"@]
}

pub open spec fn default_excludes() -> Seq<Seq<char>> {
    seq!["**/*.log"@, "**/.DS_Store"@, "**/node_modules/**"@]
}

impl Default for Config {
    fn default() -> (r: Config)
        ensures
            r.data_dir is None,
            r.git_enabled,
            r.backup_mode == BackupMode::Incremental,
            r.tracked_files@.len() == default_patterns().len(),
            forall|i: int|
                0 <= i < r.tracked_files@.len() ==> (#[trigger] r.tracked_files@[i] is Simple
                    && r.tracked_files@[i].path_spec() == default_patterns()[i]),
            r.exclude@.len() == default_excludes().len(),
            forall|i: int| 0 <= i < r.exclude@.len() ==> #[trigger] r.exclude@[i]@ == default_excludes()[i],
    {
        let patterns = vec![
            TrackedPattern::simple("~/.bashrc"),
            TrackedPattern::simple("~/.zshrc"),
            TrackedPattern::simple("~/.gitconfig"),
            TrackedPattern::simple("~/.config/dotmatrix/*"),
        ];
        let exclude = vec![
            String::from_str("**/*.log"),
            String::from_str("**/.DS_Store"),
            String::from_str("**/node_modules/**"),
        ];
        Config {
            data_dir: None,
            git_enabled: true,
            backup_mode: BackupMode::Incremental,
            tracked_files: patterns,
            exclude,
        }
    }
}

impl Config {
    /// The data directory chosen in the configuration, with `~` expanded.
    pub fn get_data_dir(&self, home: Option<&str>) -> (r: Option<String>)
        ensures
            match self.data_dir {
                Some(d) => r matches Some(x) && x@ == expand_spec(d@, opt_text(home)),
                None => r is None,
            },
    {
        match &self.data_dir {
            Some(d) => Some(expand_path(d.as_str(), home)),
            None => None,
        }
    }

    /// The text of every tracked pattern, in declaration order.
    pub fn pattern_strings(&self) -> (r: Vec<String>)
        ensures
            r@.len() == self.tracked_files@.len(),
            forall|i: int| 0 <= i < r@.len() ==> #[trigger] r@[i]@ == self.tracked_files@[i].path_spec(),
    {
        let mut out: Vec<String> = Vec::new();
        let n = self.tracked_files.len();
        let mut i: usize = 0;
        while i < n
            invariant
                n == self.tracked_files@.len(),
                i <= n,
                out@.len() == i,
                forall|k: int| 0 <= k < i ==> #[trigger] out@[k]@ == self.tracked_files@[k].path_spec(),
            decreases n - i,
        {
            out.push(String::from_str(self.tracked_files[i].path()));
            i = i + 1;
        }
        out
    }

    /// The mode of `pattern`: its own override, or the configured default.
    pub fn mode_for_pattern(&self, pattern: &TrackedPattern) -> (r: BackupMode)
        ensures
            r == match pattern.mode_spec() {
                Some(m) => m,
                None => self.backup_mode,
            },
    {
        match pattern.mode() {
            Some(m) => m,
            None => self.backup_mode,
        }
    }
}

} // verus!
