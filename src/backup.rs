//! The backup engine: which files changed, which blobs must be written, what
//! the index records, and the tallies of a run.
use crate::config::{BackupMode, Config};
use crate::index::{FileEntry, FileEntryView, Index};
use crate::paths::{contains_text, lemma_path_lt_irreflexive, path_lt, strictly_sorted, opt_text, texts, trim_leading_slashes, trim_slashes_spec};
use crate::scanner::{file_mode_spec, get_file_mode};
use crate::store::BlobSet;
use vstd::prelude::*;

verus! {

/// How a file stands against its previous index record.
#[derive(Clone, Copy, Debug, PartialEq, Eq, Structural)]
pub enum ChangeKind {
    New,
    Updated,
    Unchanged,
}

/// New where there is no record for the path; updated where the recorded
/// digest differs. The content store plays no part in this.
pub open spec fn change_spec(prev: Option<FileEntryView>, hash: Seq<char>) -> ChangeKind {
    match prev {
        None => ChangeKind::New,
        Some(e) => if e.hash != hash {
            ChangeKind::Updated
        } else {
            ChangeKind::Unchanged
        },
    }
}

pub open spec fn lookup(index: Map<Seq<char>, FileEntryView>, p: Seq<char>) -> Option<FileEntryView> {
    if index.contains_key(p) {
        Some(index[p])
    } else {
        None
    }
}

/// How `entry` stands against `prev`, the record of the same path.
pub fn classify_change(prev: Option<&FileEntry>, entry: &FileEntry) -> (r: ChangeKind)
    ensures
        r == change_spec(match prev {
            Some(e) => Some(e@),
            None => None,
        }, entry.hash@),
{
    match prev {
        None => ChangeKind::New,
        Some(e) => if crate::paths::same_text(e.hash.as_str(), entry.hash.as_str()) {
            ChangeKind::Unchanged
        } else {
            ChangeKind::Updated
        },
    }
}

/// What an incremental backup does with one file.
#[derive(Clone, Copy, Debug, PartialEq, Eq, Structural)]
pub struct IncrementalDecision {
    pub change: ChangeKind,
    /// Whether the blob must be written: no blob of this digest is stored yet.
    pub needs_copy: bool,
}

/// The counts of a run.
#[derive(Clone, Copy, Debug, PartialEq, Eq, Structural, Default)]
pub struct BackupTally {
    /// New or changed files.
    pub backed_up: u64,
    pub unchanged: u64,
    /// Blobs written to the content store.
    pub copied: u64,
    /// Files that could not be read or stored.
    pub errors: u64,
}

impl BackupTally {
    pub open spec fn has_room_spec(&self) -> bool {
        self.backed_up < u64::MAX && self.unchanged < u64::MAX && self.copied < u64::MAX
            && self.errors < u64::MAX
    }

    /// Whether one more file can be counted.
    pub fn has_room(&self) -> (r: bool)
        ensures
            r == self.has_room_spec(),
    {
        self.backed_up < u64::MAX && self.unchanged < u64::MAX && self.copied < u64::MAX
            && self.errors < u64::MAX
    }

    /// Counts a file that failed.
    pub fn record_error(&mut self)
        requires
            old(self).errors < u64::MAX,
        ensures
            *final(self) == (BackupTally { errors: (old(self).errors + 1) as u64, ..*old(self) }),
    {
        self.errors = self.errors + 1;
    }
}

/// The state of an incremental run, as the laws speak of it.
pub ghost struct RunState {
    pub index: Map<Seq<char>, FileEntryView>,
    pub store: Set<Seq<char>>,
    pub backed_up: nat,
    pub unchanged: nat,
    pub copied: nat,
}

/// One file backed up: the index takes its record whatever the outcome, the
/// store takes its blob if it was missing.
pub open spec fn step_spec(s: RunState, path: Seq<char>, e: FileEntryView) -> RunState {
    let ch = change_spec(lookup(s.index, path), e.hash);
    RunState {
        index: s.index.insert(path, e),
        store: s.store.insert(e.hash),
        backed_up: s.backed_up + if ch == ChangeKind::Unchanged {
            0nat
        } else {
            1nat
        },
        unchanged: s.unchanged + if ch == ChangeKind::Unchanged {
            1nat
        } else {
            0nat
        },
        copied: s.copied + if s.store.contains(e.hash) {
            0nat
        } else {
            1nat
        },
    }
}

/// A whole run over `files`, in order, each file read without error.
pub open spec fn run_spec(s: RunState, files: Seq<(Seq<char>, FileEntryView)>) -> RunState
    decreases files.len(),
{
    if files.len() == 0 {
        s
    } else {
        let prev = run_spec(s, files.drop_last());
        step_spec(prev, files.last().0, files.last().1)
    }
}

pub open spec fn run_state(index: &Index, store: &BlobSet, tally: &BackupTally) -> RunState {
    RunState {
        index: index@,
        store: store@,
        backed_up: tally.backed_up as nat,
        unchanged: tally.unchanged as nat,
        copied: tally.copied as nat,
    }
}

/// What an incremental backup does with `entry`, read from `path`.
pub fn decide_incremental(index: &Index, store: &BlobSet, path: &str, entry: &FileEntry) -> (r:
    IncrementalDecision)
    requires
        index.wf(),
    ensures
        r.change == change_spec(lookup(index@, path@), entry.hash@),
        r.needs_copy == !store@.contains(entry.hash@),
{
    let prev = index.get_file(path);
    let change = classify_change(prev, entry);
    IncrementalDecision { change, needs_copy: !store.contains(entry.hash.as_str()) }
}

/// Records a file whose blob is stored (it was, or it has just been written):
/// one step of the run.
pub fn record_incremental(
    index: &mut Index,
    store: &mut BlobSet,
    tally: &mut BackupTally,
    path: String,
    entry: FileEntry,
    decision: IncrementalDecision,
)
    requires
        old(index).wf(),
        old(tally).has_room_spec(),
        decision.change == change_spec(lookup(old(index)@, path@), entry.hash@),
        decision.needs_copy == !old(store)@.contains(entry.hash@),
    ensures
        final(index).wf(),
        run_state(final(index), final(store), final(tally)) == step_spec(
            run_state(old(index), old(store), old(tally)),
            path@,
            entry@,
        ),
        final(tally).errors == old(tally).errors,
{
    match decision.change {
        ChangeKind::Unchanged => {
            tally.unchanged = tally.unchanged + 1;
        },
        _ => {
            tally.backed_up = tally.backed_up + 1;
        },
    }
    if decision.needs_copy {
        tally.copied = tally.copied + 1;
    }
    store.insert(entry.hash.clone());
    index.add_file(path, entry);
}

/// Records a file added to an archive: the index takes its record.
pub fn record_archived(index: &mut Index, tally: &mut BackupTally, path: String, entry: FileEntry)
    requires
        old(index).wf(),
        old(tally).backed_up < u64::MAX,
    ensures
        final(index).wf(),
        final(index)@ == old(index)@.insert(path@, entry@),
        *final(tally) == (BackupTally { backed_up: (old(tally).backed_up + 1) as u64, ..*old(tally) }),
{
    tally.backed_up = tally.backed_up + 1;
    index.add_file(path, entry);
}

pub open spec fn paths_distinct(files: Seq<(Seq<char>, FileEntryView)>) -> bool {
    forall|i: int, j: int| 0 <= i < j < files.len() ==> (#[trigger] files[i]).0 != (#[trigger] files[j]).0
}

proof fn lemma_run_records(s: RunState, files: Seq<(Seq<char>, FileEntryView)>)
    requires
        paths_distinct(files),
    ensures
        forall|i: int|
            0 <= i < files.len() ==> {
                let r = run_spec(s, files);
                &&& r.index.contains_key((#[trigger] files[i]).0)
                &&& r.index[files[i].0] == files[i].1
                &&& r.store.contains(files[i].1.hash)
            },
        forall|x: Seq<char>| s.store.contains(x) ==> run_spec(s, files).store.contains(x),
    decreases files.len(),
{
    if files.len() > 0 {
        let init = files.drop_last();
        assert forall|i: int, j: int| 0 <= i < j < init.len() implies (#[trigger] init[i]).0 != (
        #[trigger] init[j]).0 by {
            assert(init[i] == files[i] && init[j] == files[j]);
        }
        lemma_run_records(s, init);
        let prev = run_spec(s, init);
        let r = run_spec(s, files);
        assert forall|i: int| 0 <= i < files.len() implies {
            &&& r.index.contains_key((#[trigger] files[i]).0)
            &&& r.index[files[i].0] == files[i].1
            &&& r.store.contains(files[i].1.hash)
        } by {
            if i < files.len() - 1 {
                assert(init[i] == files[i]);
                assert(files[i].0 != files[files.len() - 1].0);
            }
        }
    }
}

/// A run that finds every file already recorded with the same content and
/// every blob already stored changes nothing and writes nothing.
proof fn lemma_run_settled(s: RunState, files: Seq<(Seq<char>, FileEntryView)>)
    requires
        forall|i: int|
            0 <= i < files.len() ==> {
                &&& s.index.contains_key((#[trigger] files[i]).0)
                &&& s.index[files[i].0] == files[i].1
                &&& s.store.contains(files[i].1.hash)
            },
    ensures
        run_spec(s, files).backed_up == s.backed_up,
        run_spec(s, files).unchanged == s.unchanged + files.len(),
        run_spec(s, files).copied == s.copied,
        run_spec(s, files).index == s.index,
        run_spec(s, files).store == s.store,
    decreases files.len(),
{
    if files.len() > 0 {
        let init = files.drop_last();
        assert forall|i: int| 0 <= i < init.len() implies {
            &&& s.index.contains_key((#[trigger] init[i]).0)
            &&& s.index[init[i].0] == init[i].1
            &&& s.store.contains(init[i].1.hash)
        } by {
            assert(init[i] == files[i]);
        }
        lemma_run_settled(s, init);
        let last = files[files.len() - 1];
        assert(s.index.insert(last.0, last.1) =~= s.index);
        assert(s.store.insert(last.1.hash) =~= s.store);
    }
}

/// Backing up twice with no change on disk in between: the second run
/// classifies nothing as new or updated and writes no blob.
pub proof fn lemma_backup_idempotent(s: RunState, files: Seq<(Seq<char>, FileEntryView)>)
    requires
        paths_distinct(files),
    ensures
        ({
            let first = run_spec(s, files);
            let second = run_spec(first, files);
            &&& second.backed_up == first.backed_up
            &&& second.unchanged == first.unchanged + files.len()
            &&& second.copied == first.copied
            &&& second.index == first.index
        }),
{
    lemma_run_records(s, files);
    lemma_run_settled(run_spec(s, files), files);
}

/// The same, for the files as the scanner hands them over: strictly sorted
/// by path, hence each path once.
pub proof fn lemma_backup_idempotent_on_scan(s: RunState, files: Seq<(Seq<char>, FileEntryView)>)
    requires
        strictly_sorted(files.map_values(|f: (Seq<char>, FileEntryView)| f.0)),
    ensures
        ({
            let first = run_spec(s, files);
            let second = run_spec(first, files);
            &&& second.backed_up == first.backed_up
            &&& second.unchanged == first.unchanged + files.len()
            &&& second.copied == first.copied
            &&& second.index == first.index
        }),
{
    let ps = files.map_values(|f: (Seq<char>, FileEntryView)| f.0);
    assert forall|i: int, j: int| 0 <= i < j < files.len() implies (#[trigger] files[i]).0 != (
    #[trigger] files[j]).0 by {
        assert(ps[i] == files[i].0 && ps[j] == files[j].0);
        assert(path_lt(ps[i], ps[j]));
        lemma_path_lt_irreflexive(ps[i]);
    }
    lemma_backup_idempotent(s, files);
}

/// Two tracked paths with the same content share one digest and one blob:
/// the store is written at most once for them.
pub proof fn lemma_dedup(
    s: RunState,
    path_a: Seq<char>,
    entry_a: FileEntryView,
    path_b: Seq<char>,
    entry_b: FileEntryView,
)
    requires
        path_a != path_b,
        entry_a.hash == entry_b.hash,
    ensures
        ({
            let r = run_spec(s, seq![(path_a, entry_a), (path_b, entry_b)]);
            &&& r.index[path_a].hash == r.index[path_b].hash
            &&& r.store.contains(entry_a.hash)
            &&& r.copied == s.copied + if s.store.contains(entry_a.hash) {
                0nat
            } else {
                1nat
            }
        }),
{
    let files = seq![(path_a, entry_a), (path_b, entry_b)];
    let first = seq![(path_a, entry_a)];
    assert(files.drop_last() =~= first);
    assert(first.drop_last() =~= Seq::<(Seq<char>, FileEntryView)>::empty());
    assert(run_spec(s, first.drop_last()) == s);
    assert(run_spec(s, first) == step_spec(s, path_a, entry_a));
    assert(run_spec(s, files) == step_spec(run_spec(s, first), path_b, entry_b));
}

/// Files split by their effective backup mode, each list in the order given.
pub struct ModePartition {
    pub incremental: Vec<String>,
    pub archive: Vec<String>,
}

/// Splits `files` by the backup mode that `config` gives each.
pub fn partition_by_mode(files: &Vec<String>, config: &Config, home: Option<&str>) -> (r:
    ModePartition)
    ensures
        texts(r.incremental@) == texts(files@).filter(
            |f: Seq<char>|
                file_mode_spec(f, config.tracked_files@, config.backup_mode, opt_text(home))
                    == BackupMode::Incremental,
        ),
        texts(r.archive@) == texts(files@).filter(
            |f: Seq<char>|
                file_mode_spec(f, config.tracked_files@, config.backup_mode, opt_text(home))
                    == BackupMode::Archive,
        ),
{
    let ghost inc = |f: Seq<char>|
        file_mode_spec(f, config.tracked_files@, config.backup_mode, opt_text(home))
            == BackupMode::Incremental;
    let ghost arc = |f: Seq<char>|
        file_mode_spec(f, config.tracked_files@, config.backup_mode, opt_text(home))
            == BackupMode::Archive;
    let mut incremental: Vec<String> = Vec::new();
    let mut archive: Vec<String> = Vec::new();
    let n = files.len();
    let mut i: usize = 0;
    while i < n
        invariant
            n == files@.len(),
            i <= n,
            texts(incremental@) == texts(files@).subrange(0, i as int).filter(inc),
            texts(archive@) == texts(files@).subrange(0, i as int).filter(arc),
            inc == (|f: Seq<char>|
                file_mode_spec(f, config.tracked_files@, config.backup_mode, opt_text(home))
                    == BackupMode::Incremental),
            arc == (|f: Seq<char>|
                file_mode_spec(f, config.tracked_files@, config.backup_mode, opt_text(home))
                    == BackupMode::Archive),
        decreases n - i,
    {
        let ghost prev = texts(files@).subrange(0, i as int);
        let ghost x = files@[i as int]@;
        assert(texts(files@).subrange(0, i + 1) =~= prev.push(x));
        proof {
            prev.lemma_filter_push(x, inc);
            prev.lemma_filter_push(x, arc);
        }
        let ghost old_inc = incremental@;
        let ghost old_arc = archive@;
        match get_file_mode(files[i].as_str(), config, home) {
            BackupMode::Archive => {
                archive.push(files[i].clone());
                assert(texts(archive@) =~= texts(old_arc).push(x));
            },
            BackupMode::Incremental => {
                incremental.push(files[i].clone());
                assert(texts(incremental@) =~= texts(old_inc).push(x));
            },
        }
        i = i + 1;
    }
    assert(texts(files@).subrange(0, n as int) =~= texts(files@));
    ModePartition { incremental, archive }
}

/// The name of a file inside an archive: its path without leading separators.
pub fn archive_member_name(path: &str) -> (r: String)
    ensures
        r@ == trim_slashes_spec(path@),
{
    trim_leading_slashes(path)
}

/// The file name of the archive made at `stamp`.
pub fn archive_file_name(stamp: &str) -> (r: String)
    ensures
        r@ == "backup-"@ + stamp@ + ".tar.gz"@,
{
    String::from_str("backup-").concat(stamp).concat(".tar.gz")
}

pub open spec fn digit_char(d: nat) -> char {
    if d == 0 {
        '0'
    } else if d == 1 {
        '1'
    } else if d == 2 {
        '2'
    } else if d == 3 {
        '3'
    } else if d == 4 {
        '4'
    } else if d == 5 {
        '5'
    } else if d == 6 {
        '6'
    } else if d == 7 {
        '7'
    } else if d == 8 {
        '8'
    } else {
        '9'
    }
}

/// The decimal digits of `n`.
pub open spec fn decimal_spec(n: nat) -> Seq<char>
    decreases n,
{
    if n < 10 {
        seq![digit_char(n)]
    } else {
        decimal_spec(n / 10) + seq![digit_char(n % 10)]
    }
}

fn digit_text(d: u64) -> (r: &'static str)
    requires
        d < 10,
    ensures
        r@ == seq![digit_char(d as nat)],
{
    proof {
        reveal_strlit("0");
        reveal_strlit("1");
        reveal_strlit("2");
        reveal_strlit("3");
        reveal_strlit("4");
        reveal_strlit("5");
        reveal_strlit("6");
        reveal_strlit("7");
        reveal_strlit("8");
        reveal_strlit("9");
    }
    let r = if d == 0 {
        "0"
    } else if d == 1 {
        "1"
    } else if d == 2 {
        "2"
    } else if d == 3 {
        "3"
    } else if d == 4 {
        "4"
    } else if d == 5 {
        "5"
    } else if d == 6 {
        "6"
    } else if d == 7 {
        "7"
    } else if d == 8 {
        "8"
    } else {
        "9"
    };
    assert(r@ =~= seq![digit_char(d as nat)]);
    r
}

/// `n` in decimal.
pub fn decimal_text(n: u64) -> (r: String)
    ensures
        r@ == decimal_spec(n as nat),
    decreases n,
{
    if n < 10 {
        String::from_str(digit_text(n))
    } else {
        decimal_text(n / 10).concat(digit_text(n % 10))
    }
}

/// The history commit message of a run: the one given, unless it is
/// missing or empty, and then a count of files.
pub fn commit_message(message: Option<String>, total: u64) -> (r: String)
    ensures
        match message {
            Some(m) if m@.len() > 0 => r@ == m@,
            _ => r@ == "Backup: "@ + decimal_spec(total as nat) + " files"@,
        },
{
    match message {
        Some(m) => {
            if m.as_str().unicode_len() > 0 {
                return m;
            }
        },
        None => {},
    }
    String::from_str("Backup: ").concat(decimal_text(total).as_str()).concat(" files")
}

/// How a history commit ended.
#[derive(Clone, Copy, Debug, PartialEq, Eq, Structural)]
pub enum CommitOutcome {
    Committed,
    /// Nothing had changed; this counts as success.
    NothingToCommit,
    Failed,
}

/// Reads the end of a history commit: success, or a failure that only says
/// there was nothing to commit, count as done.
pub fn commit_outcome(success: bool, stdout: &str, stderr: &str) -> (r: CommitOutcome)
    requires
        stdout@.len() < usize::MAX,
        stderr@.len() < usize::MAX,
    ensures
        success ==> r == CommitOutcome::Committed,
        !success ==> (r == CommitOutcome::NothingToCommit <==> (crate::paths::contains_spec(
            stdout@,
            "nothing to commit"@,
        ) || crate::paths::contains_spec(stderr@, "nothing to commit"@))),
        !success ==> r != CommitOutcome::Committed,
{
    if success {
        CommitOutcome::Committed
    } else if contains_text(stdout, "nothing to commit") || contains_text(stderr, "nothing to commit") {
        CommitOutcome::NothingToCommit
    } else {
        CommitOutcome::Failed
    }
}

/// Records what a scan read of `path`: the index takes the fresh record, and
/// the result says how it stood against the one before.
pub fn record_scan(index: &mut Index, path: String, entry: FileEntry) -> (r: ChangeKind)
    requires
        old(index).wf(),
    ensures
        final(index).wf(),
        final(index)@ == old(index)@.insert(path@, entry@),
        r == change_spec(lookup(old(index)@, path@), entry.hash@),
{
    let change = classify_change(index.get_file(path.as_str()), &entry);
    index.add_file(path, entry);
    change
}

} // verus!
