//! The plain data of the interactive browser: its tabs, its list lines and
//! the history's commits.
use crate::config::BackupMode;
use crate::paths::{split_at_char, split_spec};
use vstd::prelude::*;

pub use crate::restore::{RestoreFile, RestoreView};
pub use crate::status::FileStatus;

verus! {

/// The tab shown.
#[derive(Clone, Copy, Debug, PartialEq, Eq, Structural)]
pub enum TuiMode {
    /// The status of the tracked files.
    Status,
    /// Files to add to tracking.
    Add,
    /// Past backups to restore from.
    Browse,
}

pub open spec fn mode_index(m: TuiMode) -> usize {
    match m {
        TuiMode::Status => 0,
        TuiMode::Add => 1,
        TuiMode::Browse => 2,
    }
}

impl TuiMode {
    /// The tab titles, in tab order.
    pub fn titles() -> (r: Vec<&'static str>)
        ensures
            r@.len() == 3,
            r@[0]@ == "Tracked Files"@,
            r@[1]@ == "Add Files"@,
            r@[2]@ == "Restore"@,
    {
        vec!["Tracked Files", "Add Files", "Restore"]
    }

    /// The position of the tab.
    pub fn index(&self) -> (r: usize)
        ensures
            r == mode_index(*self),
    {
        match self {
            TuiMode::Status => 0,
            TuiMode::Add => 1,
            TuiMode::Browse => 2,
        }
    }

    /// The tab at position `i`; any position past the last is the last tab.
    pub fn from_index(i: usize) -> (r: TuiMode)
        ensures
            i < 3 ==> mode_index(r) == i,
            i >= 3 ==> r == TuiMode::Browse,
    {
        match i {
            0 => TuiMode::Status,
            1 => TuiMode::Add,
            _ => TuiMode::Browse,
        }
    }
}

/// A tab's position names the tab.
pub proof fn lemma_mode_index_round_trip(m: TuiMode)
    ensures
        mode_index(m) < 3,
        m == (if mode_index(m) == 0 {
            TuiMode::Status
        } else if mode_index(m) == 1 {
            TuiMode::Add
        } else {
            TuiMode::Browse
        }),
{
}

/// One line of a file list.
#[derive(Clone, Debug)]
pub struct DisplayFile {
    pub path: String,
    pub display_path: String,
    pub status: FileStatus,
    pub size: Option<u64>,
    pub backup_size: Option<u64>,
    pub is_tracked: bool,
    pub backup_mode: Option<BackupMode>,
    pub is_dir: bool,
}

/// A commit of the history.
#[derive(Clone, Debug)]
pub struct GitCommit {
    pub hash: String,
    pub short_hash: String,
    pub message: String,
    pub date: String,
}

/// The sub-state of the Add tab.
#[derive(Clone, Copy, Debug, PartialEq, Eq, Structural, Default)]
pub enum AddSubMode {
    #[default]
    Browse,
    RecursivePreview,
}

/// A file that a recursive add would track.
#[derive(Clone, Debug)]
pub struct PreviewFile {
    pub path: String,
    pub display_path: String,
    pub size: u64,
    pub is_excluded: bool,
    pub exclude_reason: Option<String>,
}

/// A history log line `hash|short|message|date`: split at the first three
/// bars (the date keeps any further ones).
pub open spec fn commit_line_spec(line: Seq<char>) -> Option<(Seq<char>, Seq<char>, Seq<char>, Seq<char>)> {
    match split_spec(line, '|') {
        Some((h, rest)) => match split_spec(rest, '|') {
            Some((s, rest2)) => match split_spec(rest2, '|') {
                Some((m, d)) => Some((h, s, m, d)),
                None => None,
            },
            None => None,
        },
        None => None,
    }
}

/// Reads one line of the history log; `None` where it has fewer than four fields.
pub fn parse_commit_line(line: &str) -> (r: Option<GitCommit>)
    ensures
        match r {
            Some(c) => commit_line_spec(line@) == Some((c.hash@, c.short_hash@, c.message@, c.date@)),
            None => commit_line_spec(line@) is None,
        },
{
    match split_at_char(line, '|') {
        Some((hash, rest)) => match split_at_char(rest.as_str(), '|') {
            Some((short_hash, rest2)) => match split_at_char(rest2.as_str(), '|') {
                Some((message, date)) => Some(GitCommit { hash, short_hash, message, date }),
                None => None,
            },
            None => None,
        },
        None => None,
    }
}

} // verus!
