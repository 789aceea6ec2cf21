//! The restore engine: where each recorded file goes back to, what differs
//! there, what is saved before it is overwritten, and the browsing of past
//! snapshots.
use crate::config::BackupMode;
use crate::index::{copy_entry, FileEntry, FileEntryView, Index};
use crate::paths::{
    lemma_contains_push, lemma_path_lt_irreflexive, lemma_path_lt_total, lemma_path_lt_transitive,
    lemma_text_lt_total, lemma_text_lt_transitive, path_less, path_lt, split_at_char, split_spec,
    text_less, text_lt,
    contains_spec, contains_text, is_prefix, join_path, join_spec, opt_text, same_text, starts_with,
    strictly_sorted, strip_dir, strip_dir_spec, texts, trim_leading_slashes, trim_slashes_spec,
};
use crate::status::{absent_disk, disk_for, find_scanned, scanned_view, DiskState, DiskStateView};
use vstd::prelude::*;

verus! {

/// A remap rule `from=to`: split at the first `=`.
pub open spec fn parse_remap_spec(s: Seq<char>) -> Option<(Seq<char>, Seq<char>)> {
    split_spec(s, '=')
}

/// Reads a remap rule written `/old/path=/new/path`; `None` where there is no `=`.
pub fn parse_remap(remap: &str) -> (r: Option<(String, String)>)
    ensures
        match r {
            Some((a, b)) => parse_remap_spec(remap@) == Some((a@, b@)),
            None => parse_remap_spec(remap@) is None,
        },
{
    split_at_char(remap, '=')
}

pub open spec fn remap_spec(path: Seq<char>, remap: Option<(Seq<char>, Seq<char>)>) -> Seq<char> {
    match remap {
        Some((from, to)) => if is_prefix(from, path) {
            to + path.subrange(from.len() as int, path.len() as int)
        } else {
            path
        },
        None => path,
    }
}

/// Where a recorded path is restored to: first the prefix rule, then the
/// extraction root, under which the path goes without its leading separators.
pub open spec fn destination_spec(
    path: Seq<char>,
    remap: Option<(Seq<char>, Seq<char>)>,
    extract_to: Option<Seq<char>>,
) -> Seq<char> {
    let remapped = remap_spec(path, remap);
    match extract_to {
        Some(base) => join_spec(base, trim_slashes_spec(remapped)),
        None => remapped,
    }
}

pub open spec fn rule_view(remap: Option<&(String, String)>) -> Option<(Seq<char>, Seq<char>)> {
    match remap {
        Some(r) => Some((r.0@, r.1@)),
        None => None,
    }
}

/// The destination of `path` (see `destination_spec`).
pub fn remap_path(path: &str, remap: Option<&(String, String)>, extract_to: Option<&str>) -> (r:
    String)
    requires
        path@.len() < usize::MAX,
    ensures
        r@ == destination_spec(path@, rule_view(remap), opt_text(extract_to)),
{
    let remapped = match remap {
        Some(rule) => {
            if starts_with(path, rule.0.as_str()) {
                let n = path.unicode_len();
                let k = rule.0.as_str().unicode_len();
                rule.1.clone().concat(path.substring_char(k, n))
            } else {
                String::from_str(path)
            }
        },
        None => String::from_str(path),
    };
    match extract_to {
        Some(base) => {
            let rel = trim_leading_slashes(remapped.as_str());
            join_path(base, rel.as_str())
        },
        None => remapped,
    }
}

/// A recorded file set against what is at its destination now.
#[derive(Clone, Debug)]
pub struct FileComparison {
    /// The path as recorded.
    pub path: String,
    /// Where it is restored to.
    pub dest_path: String,
    pub current_exists: bool,
    pub current_size: Option<u64>,
    pub current_mtime: Option<u64>,
    pub current_hash: Option<String>,
    pub backup_size: u64,
    pub backup_mtime: u64,
    pub backup_hash: String,
}

impl FileComparison {
    /// What is known of the destination was seen there.
    pub open spec fn wf(&self) -> bool {
        (self.current_mtime is Some || self.current_hash is Some || self.current_size is Some)
            ==> self.current_exists
    }

    pub open spec fn identical_spec(&self) -> bool {
        match self.current_hash {
            Some(h) => h@ == self.backup_hash@,
            None => false,
        }
    }

    pub open spec fn newer_spec(&self) -> bool {
        match self.current_mtime {
            Some(m) => m > self.backup_mtime,
            None => false,
        }
    }

    /// An equal copy.
    pub fn duplicate(&self) -> (r: FileComparison)
        ensures
            r == *self,
    {
        FileComparison {
            path: self.path.clone(),
            dest_path: self.dest_path.clone(),
            current_exists: self.current_exists,
            current_size: self.current_size,
            current_mtime: self.current_mtime,
            current_hash: match &self.current_hash {
                Some(h) => Some(h.clone()),
                None => None,
            },
            backup_size: self.backup_size,
            backup_mtime: self.backup_mtime,
            backup_hash: self.backup_hash.clone(),
        }
    }

    /// The destination already holds the recorded content.
    pub fn is_identical(&self) -> (r: bool)
        ensures
            r == self.identical_spec(),
    {
        match &self.current_hash {
            Some(h) => same_text(h.as_str(), self.backup_hash.as_str()),
            None => false,
        }
    }

    /// The destination was modified after the backup: a conflict.
    pub fn current_is_newer(&self) -> (r: bool)
        ensures
            r == self.newer_spec(),
    {
        match self.current_mtime {
            Some(m) => m > self.backup_mtime,
            None => false,
        }
    }
}

/// Sets the record `entry` against what the disk shows at `dest`.
pub fn build_comparison(entry: &FileEntry, dest: String, disk: &DiskState) -> (r: FileComparison)
    ensures
        r.wf(),
        r.path@ == entry.path@,
        r.dest_path@ == dest@,
        r.current_exists == disk.exists,
        disk.exists ==> r.current_size == disk.size && r.current_mtime == Some(disk.mtime)
            && r.current_hash.is_some() == disk.hash.is_some() && (r.current_hash matches Some(h)
            ==> disk@.hash == Some(h@)),
        !disk.exists ==> r.current_size is None && r.current_mtime is None && r.current_hash is None,
        r.backup_size == entry.size,
        r.backup_mtime == entry.last_modified,
        r.backup_hash@ == entry.hash@,
{
    let (size, mtime, hash) = if disk.exists {
        (disk.size, Some(disk.mtime), disk.hash.clone())
    } else {
        (None, None, None)
    };
    FileComparison {
        path: entry.path.clone(),
        dest_path: dest,
        current_exists: disk.exists,
        current_size: size,
        current_mtime: mtime,
        current_hash: hash,
        backup_size: entry.size,
        backup_mtime: entry.last_modified,
        backup_hash: entry.hash.clone(),
    }
}

/// Whether `path` holds the text `t`.
#[verifier::opaque]
pub open spec fn mentions(path: Seq<char>, t: Seq<char>) -> bool {
    contains_spec(path, t)
}

/// Whether a record is picked by the file filter: no filter picks all; a
/// filter picks the paths that hold one of its texts.
pub open spec fn mentions_any(path: Seq<char>, texts: Seq<String>) -> bool {
    exists|i: int| 0 <= i < texts.len() && #[trigger] mentions(path, texts[i]@)
}

pub open spec fn picked_spec(path: Seq<char>, filter: Option<Seq<String>>) -> bool {
    match filter {
        None => true,
        Some(f) => mentions_any(path, f),
    }
}

pub open spec fn filter_view(filter: Option<&Vec<String>>) -> Option<Seq<String>> {
    match filter {
        Some(f) => Some(f@),
        None => None,
    }
}

fn mentions_any_exec(path: &str, texts: &Vec<String>) -> (r: bool)
    requires
        path@.len() < usize::MAX,
    ensures
        r == mentions_any(path@, texts@),
{
    let n = texts.len();
    let mut i: usize = 0;
    while i < n
        invariant
            n == texts@.len(),
            i <= n,
            path@.len() < usize::MAX,
            forall|k: int| 0 <= k < i ==> !#[trigger] mentions(path@, texts@[k]@),
        decreases n - i,
    {
        let found = contains_text(path, texts[i].as_str());
        proof {
            reveal(mentions);
        }
        if found {
            assert(mentions(path@, texts@[i as int]@));
            return true;
        }
        i = i + 1;
    }
    false
}

fn picked(path: &str, filter: Option<&Vec<String>>) -> (r: bool)
    requires
        path@.len() < usize::MAX,
    ensures
        r == picked_spec(path@, filter_view(filter)),
{
    match filter {
        None => true,
        Some(f) => mentions_any_exec(path, f),
    }
}

/// The records of `index` that `filter` picks, by their recorded path, each
/// with its key, in the order of keys.
pub fn select_entries(index: &Index, filter: Option<&Vec<String>>) -> (r: Vec<(String, FileEntry)>)
    requires
        index.wf(),
        forall|k: Seq<char>| #[trigger] index@.contains_key(k) ==> index@[k].path.len() < usize::MAX,
    ensures
        strictly_sorted(r@.map_values(|e: (String, FileEntry)| e.0@)),
        forall|i: int|
            0 <= i < r@.len() ==> index@.contains_key((#[trigger] r@[i]).0@) && index@[r@[i].0@]
                == r@[i].1@,
        forall|p: Seq<char>|
            r@.map_values(|e: (String, FileEntry)| e.0@).contains(p) <==> (index@.contains_key(p)
                && picked_spec(index@[p].path, filter_view(filter))),
{
    let ghost fv = filter_view(filter);
    let ghost key = |e: (String, FileEntry)| e.0@;
    let keys = index.sorted_paths();
    let mut out: Vec<(String, FileEntry)> = Vec::new();
    let n = keys.len();
    let mut i: usize = 0;
    while i < n
        invariant
            index.wf(),
            forall|k: Seq<char>| #[trigger] index@.contains_key(k) ==> index@[k].path.len() < usize::MAX,
            n == keys@.len(),
            i <= n,
            strictly_sorted(texts(keys@)),
            forall|p: Seq<char>| texts(keys@).contains(p) <==> index@.contains_key(p),
            fv == filter_view(filter),
            key == (|e: (String, FileEntry)| e.0@),
            out@.map_values(key) == texts(keys@).subrange(0, i as int).filter(
                |p: Seq<char>| index@.contains_key(p) && picked_spec(index@[p].path, fv),
            ),
            forall|k: int|
                0 <= k < out@.len() ==> index@.contains_key((#[trigger] out@[k]).0@) && index@[out@[k].0@]
                    == out@[k].1@,
        decreases n - i,
    {
        let ghost sel = |p: Seq<char>| index@.contains_key(p) && picked_spec(index@[p].path, fv);
        let ghost prev = texts(keys@).subrange(0, i as int);
        let ghost x = keys@[i as int]@;
        assert(texts(keys@)[i as int] == x);
        assert(texts(keys@).contains(x));
        assert(texts(keys@).subrange(0, i + 1) =~= prev.push(x));
        proof {
            prev.lemma_filter_push(x, sel);
        }
        let ghost old_out = out@;
        match index.get_file(keys[i].as_str()) {
            Some(e) => {
                if picked(e.path.as_str(), filter) {
                    out.push((keys[i].clone(), copy_entry(e)));
                    assert(out@.map_values(key) =~= old_out.map_values(key).push(x));
                } else {
                    assert(out@ == old_out);
                }
            },
            None => {},
        }
        i = i + 1;
    }
    let ghost sel = |p: Seq<char>| index@.contains_key(p) && picked_spec(index@[p].path, fv);
    assert(texts(keys@).subrange(0, n as int) =~= texts(keys@));
    proof {
        // a filter keeps the order and keeps each element's membership
        let all = texts(keys@);
        let f = all.filter(sel);
        assert forall|a: int, b: int| 0 <= a < b < f.len() implies crate::paths::path_lt(
            #[trigger] f[a],
            #[trigger] f[b],
        ) by {
            all.filter_lemma(sel);
            crate::paths::lemma_filter_sorted(all, sel, a, b);
        }
        assert forall|p: Seq<char>| f.contains(p) <==> (index@.contains_key(p) && sel(p)) by {
            all.filter_lemma(sel);
            if index@.contains_key(p) && sel(p) {
                assert(all.contains(p));
                let k = choose|k: int| 0 <= k < all.len() && all[k] == p;
                all.lemma_filter_contains(sel, k);
            }
        }
    }
    out
}

/// Of `comparisons`, those whose destination does not already hold the
/// recorded content: what a restore writes.
pub fn files_to_restore(comparisons: Vec<FileComparison>) -> (r: Vec<FileComparison>)
    ensures
        r@ == comparisons@.filter(|c: FileComparison| !c.identical_spec()),
{
    let ghost keep = |c: FileComparison| !c.identical_spec();
    let mut out: Vec<FileComparison> = Vec::new();
    let n = comparisons.len();
    let mut i: usize = 0;
    while i < n
        invariant
            n == comparisons@.len(),
            i <= n,
            keep == (|c: FileComparison| !c.identical_spec()),
            out@ == comparisons@.subrange(0, i as int).filter(keep),
        decreases n - i,
    {
        let ghost prev = comparisons@.subrange(0, i as int);
        assert(comparisons@.subrange(0, i + 1) =~= prev.push(comparisons@[i as int]));
        proof {
            prev.lemma_filter_push(comparisons@[i as int], keep);
        }
        if !comparisons[i].is_identical() {
            out.push(comparisons[i].duplicate());
        }
        i = i + 1;
    }
    assert(comparisons@.subrange(0, n as int) =~= comparisons@);
    out
}

/// How many of `targets` are conflicts: newer at the destination than in the backup.
pub open spec fn conflicts_spec(targets: Seq<FileComparison>) -> nat {
    targets.filter(|c: FileComparison| c.newer_spec()).len()
}

/// Counts the conflicts among `targets`.
pub fn count_conflicts(targets: &Vec<FileComparison>) -> (r: usize)
    ensures
        r == conflicts_spec(targets@),
{
    let ghost newer = |c: FileComparison| c.newer_spec();
    let n = targets.len();
    let mut count: usize = 0;
    let mut i: usize = 0;
    while i < n
        invariant
            n == targets@.len(),
            i <= n,
            newer == (|c: FileComparison| c.newer_spec()),
            count == targets@.subrange(0, i as int).filter(newer).len(),
            count <= i,
        decreases n - i,
    {
        let ghost prev = targets@.subrange(0, i as int);
        assert(targets@.subrange(0, i + 1) =~= prev.push(targets@[i as int]));
        proof {
            prev.lemma_filter_push(targets@[i as int], newer);
        }
        if targets[i].current_is_newer() {
            count = count + 1;
        }
        i = i + 1;
    }
    assert(targets@.subrange(0, n as int) =~= targets@);
    count
}

/// A restore of `n` files asks the operator first, unless confirmation was
/// given ahead (the auto-confirm flag).
pub open spec fn confirm_spec(n: nat, auto_yes: bool) -> bool {
    !auto_yes && n > 0
}

/// Whether the operator must confirm before files are overwritten.
pub fn confirmation_needed(targets: &Vec<FileComparison>, auto_yes: bool) -> (r: bool)
    ensures
        r == confirm_spec(targets@.len(), auto_yes),
{
    !auto_yes && targets.len() > 0
}

/// The directory that holds a restore's safety copies, made at `stamp`.
pub fn safety_backup_dir(home: Option<&str>, stamp: &str) -> (r: Option<String>)
    ensures
        match home {
            Some(h) => r matches Some(d) && d@ == join_spec(h@, ".dotmatrix-restore-backup-"@ + stamp@),
            None => r is None,
        },
{
    match home {
        Some(h) => {
            let name = String::from_str(".dotmatrix-restore-backup-").concat(stamp);
            Some(join_path(h, name.as_str()))
        },
        None => None,
    }
}

/// One safety copy: the file at `source` is copied to `target` before it is overwritten.
#[derive(Clone, Debug)]
pub struct SafetyCopy {
    pub source: String,
    pub target: String,
}

pub open spec fn safety_target_spec(dir: Seq<char>, dest: Seq<char>) -> Seq<char> {
    join_spec(dir, trim_slashes_spec(dest))
}

/// The safety copies that a restore of `targets` makes into `dir`: one for
/// every destination that exists, at its path under `dir`.
pub fn safety_copies(targets: &Vec<FileComparison>, dir: &str) -> (r: Vec<SafetyCopy>)
    ensures
        r@.map_values(|s: SafetyCopy| (s.source@, s.target@)) == targets@.filter(
            |c: FileComparison| c.current_exists,
        ).map_values(|c: FileComparison| (c.dest_path@, safety_target_spec(dir@, c.dest_path@))),
{
    let ghost keep = |c: FileComparison| c.current_exists;
    let ghost pv = |s: SafetyCopy| (s.source@, s.target@);
    let ghost cv = |c: FileComparison| (c.dest_path@, safety_target_spec(dir@, c.dest_path@));
    let mut out: Vec<SafetyCopy> = Vec::new();
    let n = targets.len();
    let mut i: usize = 0;
    while i < n
        invariant
            n == targets@.len(),
            i <= n,
            keep == (|c: FileComparison| c.current_exists),
            pv == (|s: SafetyCopy| (s.source@, s.target@)),
            cv == (|c: FileComparison| (c.dest_path@, safety_target_spec(dir@, c.dest_path@))),
            out@.map_values(pv) == targets@.subrange(0, i as int).filter(keep).map_values(cv),
        decreases n - i,
    {
        let ghost prev = targets@.subrange(0, i as int);
        assert(targets@.subrange(0, i + 1) =~= prev.push(targets@[i as int]));
        proof {
            prev.lemma_filter_push(targets@[i as int], keep);
        }
        let ghost old_out = out@;
        if targets[i].current_exists {
            let rel = trim_leading_slashes(targets[i].dest_path.as_str());
            let target = join_path(dir, rel.as_str());
            out.push(SafetyCopy { source: targets[i].dest_path.clone(), target });
            assert(out@.map_values(pv) =~= old_out.map_values(pv).push(cv(targets@[i as int])));
            assert(prev.filter(keep).push(targets@[i as int]).map_values(cv) =~= prev.filter(
                keep,
            ).map_values(cv).push(cv(targets@[i as int])));
        }
        i = i + 1;
    }
    assert(targets@.subrange(0, n as int) =~= targets@);
    out
}

/// A conflict is never overwritten unseen: a destination newer than its
/// backup needs the operator's confirmation (unless given ahead), and it
/// exists, so the safety copies of the restore hold a copy of it.
pub proof fn lemma_conflict_gate(targets: Seq<FileComparison>, i: int, auto_yes: bool, dir: Seq<char>)
    requires
        0 <= i < targets.len(),
        targets[i].wf(),
        targets[i].newer_spec(),
    ensures
        !auto_yes ==> confirm_spec(targets.len(), auto_yes),
        targets.filter(|c: FileComparison| c.current_exists).map_values(
            |c: FileComparison| (c.dest_path@, safety_target_spec(dir, c.dest_path@)),
        ).contains((targets[i].dest_path@, safety_target_spec(dir, targets[i].dest_path@))),
{
    let keep = |c: FileComparison| c.current_exists;
    let cv = |c: FileComparison| (c.dest_path@, safety_target_spec(dir, c.dest_path@));
    assert(targets[i].current_exists);
    targets.lemma_filter_contains(keep, i);
    let f = targets.filter(keep);
    let k = choose|k: int| 0 <= k < f.len() && f[k] == targets[i];
    assert(f.map_values(cv)[k] == cv(targets[i]));
}

/// What the copy phase does with one file.
#[derive(Clone, Copy, Debug, PartialEq, Eq, Structural)]
pub enum RestoreAction {
    /// Copy the blob to the destination.
    Copy,
    /// The blob is not in the store: an error for this file.
    MissingBlob,
    /// The blob is not in the store and the files were archived: restoring
    /// from archives is not supported, an error for this file.
    ArchiveUnsupported,
}

/// What to do with a file whose blob is (or is not) in the store.
pub fn restore_action(blob_present: bool, mode: BackupMode) -> (r: RestoreAction)
    ensures
        blob_present ==> r == RestoreAction::Copy,
        !blob_present && mode == BackupMode::Archive ==> r == RestoreAction::ArchiveUnsupported,
        !blob_present && mode == BackupMode::Incremental ==> r == RestoreAction::MissingBlob,
{
    if blob_present {
        RestoreAction::Copy
    } else {
        match mode {
            BackupMode::Archive => RestoreAction::ArchiveUnsupported,
            BackupMode::Incremental => RestoreAction::MissingBlob,
        }
    }
}

/// The counts of a restore's copy phase.
#[derive(Clone, Copy, Debug, PartialEq, Eq, Structural, Default)]
pub struct RestoreTally {
    pub restored: u64,
    pub errors: u64,
}

impl RestoreTally {
    /// Counts one file: restored, or an error.
    pub fn record(&mut self, restored: bool)
        requires
            old(self).restored < u64::MAX,
            old(self).errors < u64::MAX,
        ensures
            restored ==> *final(self) == (RestoreTally {
                restored: (old(self).restored + 1) as u64,
                ..*old(self)
            }),
            !restored ==> *final(self) == (RestoreTally {
                errors: (old(self).errors + 1) as u64,
                ..*old(self)
            }),
    {
        if restored {
            self.restored = self.restored + 1;
        } else {
            self.errors = self.errors + 1;
        }
    }
}

/// A path as it is shown: under the home directory it is written `~/...`.
pub open spec fn display_spec(path: Seq<char>, home: Option<Seq<char>>) -> Seq<char> {
    match home {
        Some(h) => match strip_dir_spec(path, h) {
            Some(rel) => "~/"@ + rel,
            None => path,
        },
        None => path,
    }
}

/// How `path` is shown (see `display_spec`).
pub fn display_path(path: &str, home: Option<&str>) -> (r: String)
    requires
        path@.len() < usize::MAX,
    ensures
        r@ == display_spec(path@, opt_text(home)),
{
    match home {
        Some(h) => match strip_dir(path, h) {
            Some(rel) => String::from_str("~/").concat(rel.as_str()),
            None => String::from_str(path),
        },
        None => String::from_str(path),
    }
}

/// Which list the restore browser shows.
#[derive(Clone, Copy, Debug, PartialEq, Eq, Structural)]
pub enum RestoreView {
    /// The history's commits.
    Commits,
    /// The files of the chosen commit.
    Files,
}

/// A file of a past snapshot, set against the disk now.
#[derive(Clone, Debug)]
pub struct RestoreFile {
    pub path: String,
    pub display_path: String,
    pub hash: String,
    pub size: u64,
    pub exists_locally: bool,
    /// The local file is missing, unreadable, or holds other content.
    pub local_differs: bool,
}

pub open spec fn local_differs_spec(entry: FileEntryView, disk: DiskStateView) -> bool {
    !disk.exists || match disk.hash {
        Some(h) => h != entry.hash,
        None => true,
    }
}

/// Sets the record `entry` of `path` against what the disk shows there.
pub fn restore_file(path: &str, entry: &FileEntry, disk: &DiskState, home: Option<&str>) -> (r:
    RestoreFile)
    requires
        path@.len() < usize::MAX,
    ensures
        r.path@ == path@,
        r.display_path@ == display_spec(path@, opt_text(home)),
        r.hash@ == entry.hash@,
        r.size == entry.size,
        r.exists_locally == disk.exists,
        r.local_differs == local_differs_spec(entry@, disk@),
{
    let differs = if !disk.exists {
        true
    } else {
        match &disk.hash {
            Some(h) => !same_text(h.as_str(), entry.hash.as_str()),
            None => true,
        }
    };
    RestoreFile {
        path: String::from_str(path),
        display_path: display_path(path, home),
        hash: entry.hash.clone(),
        size: entry.size,
        exists_locally: disk.exists,
        local_differs: differs,
    }
}

/// The restore browser: a list of commits, or the files of one of them.
pub struct RestoreBrowser {
    pub view: RestoreView,
    pub selected_commit: Option<usize>,
    pub files: Vec<RestoreFile>,
    /// The highlighted line of the list shown.
    pub cursor: Option<usize>,
}

impl RestoreBrowser {
    /// The commit list, nothing loaded.
    pub fn new(n_commits: usize) -> (r: RestoreBrowser)
        ensures
            r.view == RestoreView::Commits,
            r.selected_commit is None,
            r.files@.len() == 0,
            r.cursor == (if n_commits > 0 {
                Some(0usize)
            } else {
                None
            }),
    {
        RestoreBrowser {
            view: RestoreView::Commits,
            selected_commit: None,
            files: Vec::new(),
            cursor: if n_commits > 0 {
                Some(0)
            } else {
                None
            },
        }
    }

    /// The commit whose snapshot selecting would load: the highlighted one,
    /// where the commit list is shown and the line is a commit.
    pub fn commit_to_load(&self, n_commits: usize) -> (r: Option<usize>)
        ensures
            r == (match self.cursor {
                Some(i) => if self.view == RestoreView::Commits && i < n_commits {
                    Some(i)
                } else {
                    None
                },
                None => None,
            }),
    {
        match self.cursor {
            Some(i) => if self.view == RestoreView::Commits && i < n_commits {
                Some(i)
            } else {
                None
            },
            None => None,
        }
    }

    /// Shows the files of `commit`, loaded from its snapshot.
    pub fn select_commit(&mut self, commit: usize, files: Vec<RestoreFile>)
        ensures
            final(self).view == RestoreView::Files,
            final(self).selected_commit == Some(commit),
            final(self).files@ == files@,
            final(self).cursor == Some(0usize),
    {
        self.selected_commit = Some(commit);
        self.files = files;
        self.view = RestoreView::Files;
        self.cursor = Some(0);
    }

    /// Back to the commit list: the loaded files and the choice are dropped.
    pub fn back_to_commits(&mut self, n_commits: usize)
        ensures
            final(self).view == RestoreView::Commits,
            final(self).selected_commit is None,
            final(self).files@.len() == 0,
            final(self).cursor == (if n_commits > 0 {
                Some(0usize)
            } else {
                old(self).cursor
            }),
    {
        self.view = RestoreView::Commits;
        self.selected_commit = None;
        self.files = Vec::new();
        if n_commits > 0 {
            self.cursor = Some(0);
        }
    }
}

/// The order of a snapshot's files: by shown path, then by recorded path.
pub open spec fn shown_before(a: RestoreFile, b: RestoreFile) -> bool {
    text_lt(a.display_path@, b.display_path@) || (a.display_path@ == b.display_path@ && path_lt(
        a.path@,
        b.path@,
    ))
}

pub open spec fn files_sorted(s: Seq<RestoreFile>) -> bool {
    forall|i: int, j: int| 0 <= i < j < s.len() ==> shown_before(#[trigger] s[i], #[trigger] s[j])
}

proof fn lemma_shown_before_transitive(a: RestoreFile, b: RestoreFile, c: RestoreFile)
    requires
        shown_before(a, b),
        shown_before(b, c),
    ensures
        shown_before(a, c),
{
    if text_lt(a.display_path@, b.display_path@) && text_lt(b.display_path@, c.display_path@) {
        lemma_text_lt_transitive(a.display_path@, b.display_path@, c.display_path@);
    } else if a.display_path@ == b.display_path@ && b.display_path@ == c.display_path@ {
        lemma_path_lt_transitive(a.path@, b.path@, c.path@);
    }
}

proof fn lemma_shown_before_total(a: RestoreFile, b: RestoreFile)
    requires
        a.path@ != b.path@,
    ensures
        shown_before(a, b) || shown_before(b, a),
{
    lemma_text_lt_total(a.display_path@, b.display_path@);
    lemma_path_lt_total(a.path@, b.path@);
}

pub open spec fn file_paths(s: Seq<RestoreFile>) -> Seq<Seq<char>> {
    s.map_values(|f: RestoreFile| f.path@)
}

fn shown_less(a: &RestoreFile, b: &RestoreFile) -> (r: bool)
    ensures
        r == shown_before(*a, *b),
{
    if text_less(a.display_path.as_str(), b.display_path.as_str()) {
        true
    } else if same_text(a.display_path.as_str(), b.display_path.as_str()) {
        path_less(a.path.as_str(), b.path.as_str())
    } else {
        false
    }
}

/// Puts `f` in its place in `v`, whose paths do not include `f`'s.
fn insert_shown(v: &mut Vec<RestoreFile>, f: RestoreFile)
    requires
        files_sorted(old(v)@),
        !file_paths(old(v)@).contains(f.path@),
    ensures
        files_sorted(final(v)@),
        forall|g: RestoreFile| final(v)@.contains(g) <==> (old(v)@.contains(g) || g == f),
        forall|p: Seq<char>| file_paths(final(v)@).contains(p) <==> (file_paths(old(v)@).contains(p) || p == f.path@),
{
    let n = v.len();
    let mut i: usize = 0;
    while i < n && shown_less(&v[i], &f)
        invariant
            n == v@.len(),
            i <= n,
            forall|k: int| 0 <= k < i ==> shown_before(#[trigger] v@[k], f),
        decreases n - i,
    {
        i = i + 1;
    }
    let ghost old_v = v@;
    proof {
        if i < n {
            assert(file_paths(old_v)[i as int] == old_v[i as int].path@);
            lemma_shown_before_total(old_v[i as int], f);
        }
    }
    v.insert(i, f);
    let ghost new_v = v@;
    assert(new_v =~= old_v.insert(i as int, f));
    assert forall|a: int, b: int| 0 <= a < b < new_v.len() implies shown_before(
        #[trigger] new_v[a],
        #[trigger] new_v[b],
    ) by {
        if b < i {
        } else if b == i {
        } else if a < i {
            if b - 1 > i {
                assert(shown_before(old_v[i as int], old_v[b - 1]));
                lemma_shown_before_transitive(f, old_v[i as int], old_v[b - 1]);
            }
            lemma_shown_before_transitive(old_v[a], f, old_v[b - 1]);
        } else if a == i {
            if b - 1 > i {
                assert(shown_before(old_v[i as int], old_v[b - 1]));
                lemma_shown_before_transitive(f, old_v[i as int], old_v[b - 1]);
            }
        } else {
            assert(new_v[a] == old_v[a - 1]);
            assert(new_v[b] == old_v[b - 1]);
        }
    }
    assert forall|g: RestoreFile| new_v.contains(g) <==> (old_v.contains(g) || g == f) by {
        if new_v.contains(g) {
            let k = choose|k: int| 0 <= k < new_v.len() && new_v[k] == g;
            if k < i {
                assert(old_v[k] == g);
            } else if k > i {
                assert(old_v[k - 1] == g);
            }
        }
        if old_v.contains(g) {
            let k = choose|k: int| 0 <= k < old_v.len() && old_v[k] == g;
            if k < i {
                assert(new_v[k] == g);
            } else {
                assert(new_v[k + 1] == g);
            }
        }
        if g == f {
            assert(new_v[i as int] == g);
        }
    }
    assert forall|p: Seq<char>| file_paths(new_v).contains(p) <==> (file_paths(old_v).contains(p) || p == f.path@) by {
        if file_paths(new_v).contains(p) {
            let k = choose|k: int| 0 <= k < new_v.len() && file_paths(new_v)[k] == p;
            if k < i {
                assert(file_paths(old_v)[k] == p);
            } else if k > i {
                assert(file_paths(old_v)[k - 1] == p);
            }
        }
        if file_paths(old_v).contains(p) {
            let k = choose|k: int| 0 <= k < old_v.len() && file_paths(old_v)[k] == p;
            if k < i {
                assert(file_paths(new_v)[k] == p);
            } else {
                assert(file_paths(new_v)[k + 1] == p);
            }
        }
        if p == f.path@ {
            assert(file_paths(new_v)[i as int] == p);
        }
    }
}

/// What a snapshot's file says of its record and of the disk.
pub open spec fn snapshot_line(
    f: RestoreFile,
    index: Map<Seq<char>, FileEntryView>,
    disks: Seq<(Seq<char>, DiskStateView)>,
    home: Option<Seq<char>>,
) -> bool {
    &&& index.contains_key(f.path@)
    &&& f.display_path@ == display_spec(f.path@, home)
    &&& f.hash@ == index[f.path@].hash
    &&& f.size == index[f.path@].size
    &&& f.exists_locally == disk_for(disks, f.path@).exists
    &&& f.local_differs == local_differs_spec(index[f.path@], disk_for(disks, f.path@))
}

/// The files of a snapshot, ordered by shown path (then by recorded path),
/// each set against what `disks` says the disk shows at its path.
pub fn snapshot_files(index: &Index, disks: &Vec<(String, DiskState)>, home: Option<&str>) -> (r:
    Vec<RestoreFile>)
    requires
        index.wf(),
        forall|k: Seq<char>| #[trigger] index@.contains_key(k) ==> k.len() < usize::MAX,
    ensures
        files_sorted(r@),
        forall|p: Seq<char>| file_paths(r@).contains(p) <==> index@.contains_key(p),
        forall|i: int|
            0 <= i < r@.len() ==> snapshot_line(
                #[trigger] r@[i],
                index@,
                scanned_view(disks@),
                opt_text(home),
            ),
{
    let keys = index.sorted_paths();
    let ghost dv = scanned_view(disks@);
    let mut out: Vec<RestoreFile> = Vec::new();
    let n = keys.len();
    let mut i: usize = 0;
    while i < n
        invariant
            index.wf(),
            forall|k: Seq<char>| #[trigger] index@.contains_key(k) ==> k.len() < usize::MAX,
            n == keys@.len(),
            i <= n,
            dv == scanned_view(disks@),
            strictly_sorted(texts(keys@)),
            forall|p: Seq<char>| texts(keys@).contains(p) <==> index@.contains_key(p),
            files_sorted(out@),
            forall|p: Seq<char>|
                file_paths(out@).contains(p) <==> texts(keys@).subrange(0, i as int).contains(p),
            forall|k: int| 0 <= k < out@.len() ==> snapshot_line(#[trigger] out@[k], index@, dv, opt_text(home)),
        decreases n - i,
    {
        let ghost x = keys@[i as int]@;
        assert(texts(keys@)[i as int] == x);
        assert(texts(keys@).contains(x));
        proof {
            if texts(keys@).subrange(0, i as int).contains(x) {
                let k = choose|k: int| 0 <= k < i && texts(keys@).subrange(0, i as int)[k] == x;
                assert(path_lt(texts(keys@)[k], texts(keys@)[i as int]));
                lemma_path_lt_irreflexive(x);
            }
        }
        let p = keys[i].as_str();
        let e = index.get_file(p);
        let ghost before = out@;
        match e {
            Some(entry) => {
                let f = match find_scanned(disks, p) {
                    Some(k) => restore_file(p, entry, &disks[k].1, home),
                    None => {
                        let missing = DiskState { exists: false, size: None, mtime: 0, hash: None };
                        assert(missing@ == absent_disk());
                        restore_file(p, entry, &missing, home)
                    },
                };
                assert(snapshot_line(f, index@, dv, opt_text(home)));
                insert_shown(&mut out, f);
                assert forall|k: int| 0 <= k < out@.len() implies snapshot_line(
                    #[trigger] out@[k],
                    index@,
                    dv,
                    opt_text(home),
                ) by {
                    assert(out@.contains(out@[k]));
                    if before.contains(out@[k]) {
                        let m = choose|m: int| 0 <= m < before.len() && before[m] == out@[k];
                        assert(snapshot_line(before[m], index@, dv, opt_text(home)));
                    }
                }
            },
            None => {},
        }
        proof {
            assert(texts(keys@).subrange(0, i + 1) =~= texts(keys@).subrange(0, i as int).push(x));
            assert forall|q: Seq<char>|
                file_paths(out@).contains(q) <==> texts(keys@).subrange(0, i + 1).contains(q) by {
                lemma_contains_push(texts(keys@).subrange(0, i as int), x, q);
            }
        }
        i = i + 1;
    }
    assert(texts(keys@).subrange(0, n as int) =~= texts(keys@));
    out
}

/// Whether an answer to a yes/no prompt, trimmed and lower-cased, says yes.
pub fn is_yes_word(answer: &str) -> (r: bool)
    ensures
        r == (answer@ == "y"@ || answer@ == "yes"@),
{
    let a = String::from_str(answer);
    let y = String::from_str("y");
    let yes = String::from_str("yes");
    a == y || a == yes
}

/// What `str::trim` gives for `s`.
pub uninterp spec fn trimmed(s: Seq<char>) -> Seq<char>;

/// What `str::to_lowercase` gives for `s`.
pub uninterp spec fn lowercased(s: Seq<char>) -> Seq<char>;

/// Relies on str::trim: `s` without leading and trailing whitespace.
#[verifier::external_body]
fn trim_text(s: &str) -> (r: String)
    ensures
        r@ == trimmed(s@),
{
    s.trim().to_string()
}

/// Relies on str::to_lowercase: the lower-case form of `s`.
#[verifier::external_body]
fn lowercase_text(s: &str) -> (r: String)
    ensures
        r@ == lowercased(s@),
{
    s.to_lowercase()
}

/// Whether the operator's answer to a yes/no prompt says yes: `y` or `yes`,
/// in any case, with surrounding whitespace.
pub fn answer_is_yes(answer: &str) -> (r: bool)
    ensures
        r == (lowercased(trimmed(answer@)) == "y"@ || lowercased(trimmed(answer@)) == "yes"@),
{
    let t = trim_text(answer);
    let l = lowercase_text(t.as_str());
    is_yes_word(l.as_str())
}

/// After a file is backed up and then deleted, a restore picks it up: the
/// index holds its record, the store holds the blob named by the recorded
/// digest, the missing destination is not identical to the backup, so the
/// blob of that digest is copied back to the recorded path.
pub proof fn lemma_deleted_file_restored(
    s: crate::backup::RunState,
    path: Seq<char>,
    entry: FileEntryView,
    c: FileComparison,
)
    requires
        c.wf(),
        !c.current_exists,
        c.backup_hash@ == entry.hash,
    ensures
        crate::backup::step_spec(s, path, entry).index[path] == entry,
        crate::backup::step_spec(s, path, entry).store.contains(entry.hash),
        !c.identical_spec(),
        destination_spec(path, None, None) == path,
{
}

} // verus!
