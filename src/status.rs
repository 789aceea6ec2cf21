//! Reconciling what is on disk against the index.
use crate::index::{FileEntry, FileEntryView, Index};
use crate::paths::{insert_sorted, lemma_sorted_unique, same_text, strictly_sorted, texts};
use vstd::prelude::*;

verus! {

/// How a tracked path stands against the index.
#[derive(Clone, Copy, Debug, PartialEq, Eq, Structural)]
pub enum FileStatus {
    Unchanged,
    Modified,
    New,
    Deleted,
    /// Not tracked at all (shown while browsing for files to add).
    Untracked,
}

pub open spec fn symbol_spec(s: FileStatus) -> Seq<char> {
    match s {
        FileStatus::Unchanged => " "@,
        FileStatus::Modified => "M"@,
        FileStatus::New => "+"@,
        FileStatus::Deleted => "-"@,
        FileStatus::Untracked => "?"@,
    }
}

impl FileStatus {
    /// The one-character mark of the status in listings.
    pub fn symbol(&self) -> (r: &'static str)
        ensures
            r@ == symbol_spec(*self),
    {
        match self {
            FileStatus::Unchanged => " ",
            FileStatus::Modified => "M",
            FileStatus::New => "+",
            FileStatus::Deleted => "-",
            FileStatus::Untracked => "?",
        }
    }
}

/// What the disk showed of a path when it was looked at.
#[derive(Clone, Debug)]
pub struct DiskState {
    pub exists: bool,
    /// `None` where the metadata could not be read.
    pub size: Option<u64>,
    /// Unix seconds; 0 where unknown.
    pub mtime: u64,
    /// The content digest; `None` where it was not computed or the file
    /// could not be read.
    pub hash: Option<String>,
}

pub ghost struct DiskStateView {
    pub exists: bool,
    pub size: Option<u64>,
    pub mtime: u64,
    pub hash: Option<Seq<char>>,
}

impl View for DiskState {
    type V = DiskStateView;

    open spec fn view(&self) -> DiskStateView {
        DiskStateView {
            exists: self.exists,
            size: self.size,
            mtime: self.mtime,
            hash: match self.hash {
                Some(h) => Some(h@),
                None => None,
            },
        }
    }
}

/// One line of a status report.
#[derive(Clone, Debug)]
pub struct StatusEntry {
    pub path: String,
    pub status: FileStatus,
    pub current_size: Option<u64>,
    pub backup_size: Option<u64>,
}

pub ghost struct StatusEntryView {
    pub path: Seq<char>,
    pub status: FileStatus,
    pub current_size: Option<u64>,
    pub backup_size: Option<u64>,
}

impl View for StatusEntry {
    type V = StatusEntryView;

    open spec fn view(&self) -> StatusEntryView {
        StatusEntryView {
            path: self.path@,
            status: self.status,
            current_size: self.current_size,
            backup_size: self.backup_size,
        }
    }
}

/// Whether the disk differs from the backup: in quick mode by size and
/// modification time, otherwise by digest (an unreadable file differs).
pub open spec fn differs_spec(backup: FileEntryView, disk: DiskStateView, quick: bool) -> bool {
    if quick {
        disk.size != Some(backup.size) || disk.mtime != backup.last_modified
    } else {
        match disk.hash {
            Some(h) => h != backup.hash,
            None => true,
        }
    }
}

/// The report line of a path that the scan found, with its index record if any.
pub open spec fn classify_spec(
    path: Seq<char>,
    backup: Option<FileEntryView>,
    disk: DiskStateView,
    quick: bool,
) -> StatusEntryView {
    match backup {
        None => StatusEntryView {
            path,
            status: FileStatus::New,
            current_size: disk.size,
            backup_size: None,
        },
        Some(b) => if !disk.exists {
            StatusEntryView {
                path,
                status: FileStatus::Deleted,
                current_size: None,
                backup_size: Some(b.size),
            }
        } else {
            StatusEntryView {
                path,
                status: if differs_spec(b, disk, quick) {
                    FileStatus::Modified
                } else {
                    FileStatus::Unchanged
                },
                current_size: disk.size,
                backup_size: Some(b.size),
            }
        },
    }
}

pub open spec fn scanned_view(scanned: Seq<(String, DiskState)>) -> Seq<(Seq<char>, DiskStateView)> {
    scanned.map_values(|e: (String, DiskState)| (e.0@, e.1@))
}

/// What the scan saw of `p`: the first record for it.
pub open spec fn lookup_spec(s: Seq<(Seq<char>, DiskStateView)>, p: Seq<char>) -> Option<DiskStateView>
    decreases s.len(),
{
    if s.len() == 0 {
        None
    } else if s[0].0 == p {
        Some(s[0].1)
    } else {
        lookup_spec(s.drop_first(), p)
    }
}

/// The report line of `p`: classified where the scan found it, otherwise
/// deleted (it is in the index only, and missing on disk).
pub open spec fn status_of(
    index: Map<Seq<char>, FileEntryView>,
    scanned: Seq<(Seq<char>, DiskStateView)>,
    quick: bool,
    p: Seq<char>,
) -> StatusEntryView {
    match lookup_spec(scanned, p) {
        Some(d) => classify_spec(
            p,
            if index.contains_key(p) {
                Some(index[p])
            } else {
                None
            },
            d,
            quick,
        ),
        None => StatusEntryView {
            path: p,
            status: FileStatus::Deleted,
            current_size: None,
            backup_size: Some(index[p].size),
        },
    }
}

pub open spec fn entry_paths(r: Seq<StatusEntryView>) -> Seq<Seq<char>> {
    r.map_values(|e: StatusEntryView| e.path)
}

pub open spec fn views(r: Seq<StatusEntry>) -> Seq<StatusEntryView> {
    r.map_values(|e: StatusEntry| e@)
}

/// What the disk shows of a path that was not looked at: nothing there.
pub open spec fn absent_disk() -> DiskStateView {
    DiskStateView { exists: false, size: None, mtime: 0, hash: None }
}

/// What `disks` says of `p`, or nothing there.
pub open spec fn disk_for(disks: Seq<(Seq<char>, DiskStateView)>, p: Seq<char>) -> DiskStateView {
    match lookup_spec(disks, p) {
        Some(d) => d,
        None => absent_disk(),
    }
}

/// Whether `p` has a line in the report: the scan found it, or it is in the
/// index and missing on disk. An index entry that no pattern matches any
/// more while its file is still on disk is an orphan, not a deletion: it
/// has no line.
pub open spec fn reported(
    index: Map<Seq<char>, FileEntryView>,
    scanned: Seq<(Seq<char>, DiskStateView)>,
    elsewhere: Seq<(Seq<char>, DiskStateView)>,
    p: Seq<char>,
) -> bool {
    lookup_spec(scanned, p) is Some || (index.contains_key(p) && !disk_for(elsewhere, p).exists)
}

/// A report is right when it lists every reported path once, in the order
/// of paths, each with its line.
pub open spec fn status_report(
    index: Map<Seq<char>, FileEntryView>,
    scanned: Seq<(Seq<char>, DiskStateView)>,
    elsewhere: Seq<(Seq<char>, DiskStateView)>,
    quick: bool,
    r: Seq<StatusEntryView>,
) -> bool {
    &&& strictly_sorted(entry_paths(r))
    &&& forall|p: Seq<char>| entry_paths(r).contains(p) <==> reported(index, scanned, elsewhere, p)
    &&& forall|i: int| 0 <= i < r.len() ==> #[trigger] r[i] == status_of(index, scanned, quick, r[i].path)
}

proof fn lemma_lookup_found(s: Seq<(Seq<char>, DiskStateView)>, p: Seq<char>)
    ensures
        lookup_spec(s, p) is Some <==> exists|i: int| 0 <= i < s.len() && (#[trigger] s[i]).0 == p,
    decreases s.len(),
{
    if s.len() > 0 {
        lemma_lookup_found(s.drop_first(), p);
        if s[0].0 != p {
            if exists|i: int| 0 <= i < s.len() && (#[trigger] s[i]).0 == p {
                let i = choose|i: int| 0 <= i < s.len() && (#[trigger] s[i]).0 == p;
                assert(s.drop_first()[i - 1] == s[i]);
            }
            if lookup_spec(s.drop_first(), p) is Some {
                let i = choose|i: int|
                    0 <= i < s.drop_first().len() && (#[trigger] s.drop_first()[i]).0 == p;
                assert(s[i + 1] == s.drop_first()[i]);
            }
        } else {
            assert(s[0].0 == p);
        }
    }
}

/// Where the scan recorded `path`, if it did.
pub fn find_scanned(scanned: &Vec<(String, DiskState)>, path: &str) -> (r: Option<usize>)
    ensures
        match r {
            Some(i) => i < scanned@.len() && lookup_spec(scanned_view(scanned@), path@) == Some(
                scanned@[i as int].1@,
            ),
            None => lookup_spec(scanned_view(scanned@), path@) is None,
        },
{
    let ghost sv = scanned_view(scanned@);
    let n = scanned.len();
    let mut i: usize = 0;
    assert(sv.skip(0) =~= sv);
    while i < n
        invariant
            n == scanned@.len(),
            sv == scanned_view(scanned@),
            i <= n,
            lookup_spec(sv, path@) == lookup_spec(sv.skip(i as int), path@),
        decreases n - i,
    {
        let ghost rest = sv.skip(i as int);
        assert(rest[0] == (scanned@[i as int].0@, scanned@[i as int].1@));
        if same_text(scanned[i].0.as_str(), path) {
            return Some(i);
        }
        assert(rest.drop_first() =~= sv.skip(i + 1));
        i = i + 1;
    }
    assert(sv.skip(n as int) =~= Seq::<(Seq<char>, DiskStateView)>::empty());
    None
}

/// The report line of a scanned path (see `classify_spec`).
pub fn classify(path: &str, backup: Option<&FileEntry>, disk: &DiskState, quick: bool) -> (r:
    StatusEntry)
    ensures
        r@ == classify_spec(path@, match backup {
            Some(b) => Some(b@),
            None => None,
        }, disk@, quick),
{
    match backup {
        None => StatusEntry {
            path: String::from_str(path),
            status: FileStatus::New,
            current_size: disk.size,
            backup_size: None,
        },
        Some(b) => {
            if !disk.exists {
                StatusEntry {
                    path: String::from_str(path),
                    status: FileStatus::Deleted,
                    current_size: None,
                    backup_size: Some(b.size),
                }
            } else {
                let differs = if quick {
                    disk.size != Some(b.size) || disk.mtime != b.last_modified
                } else {
                    match &disk.hash {
                        Some(h) => !same_text(h.as_str(), b.hash.as_str()),
                        None => true,
                    }
                };
                StatusEntry {
                    path: String::from_str(path),
                    status: if differs {
                        FileStatus::Modified
                    } else {
                        FileStatus::Unchanged
                    },
                    current_size: disk.size,
                    backup_size: Some(b.size),
                }
            }
        },
    }
}

/// The status of every tracked path: those the scan found (each with what
/// the disk showed of it), and those only the index knows, with what the
/// disk shows of them in `elsewhere` (a path not looked at counts as
/// missing). Sorted by path.
pub fn compute_status(
    index: &Index,
    scanned: &Vec<(String, DiskState)>,
    elsewhere: &Vec<(String, DiskState)>,
    quick: bool,
) -> (r: Vec<StatusEntry>)
    requires
        index.wf(),
    ensures
        status_report(index@, scanned_view(scanned@), scanned_view(elsewhere@), quick, views(r@)),
{
    let ghost sv = scanned_view(scanned@);
    let ghost ev = scanned_view(elsewhere@);
    // every path once, in order
    let mut all = index.sorted_paths();
    let n = scanned.len();
    let mut i: usize = 0;
    while i < n
        invariant
            index.wf(),
            n == scanned@.len(),
            sv == scanned_view(scanned@),
            i <= n,
            strictly_sorted(texts(all@)),
            forall|p: Seq<char>|
                texts(all@).contains(p) <==> (index@.contains_key(p) || exists|k: int|
                    0 <= k < i && (#[trigger] sv[k]).0 == p),
        decreases n - i,
    {
        insert_sorted(&mut all, scanned[i].0.clone());
        proof {
            assert(sv[i as int].0 == scanned@[i as int].0@);
            assert forall|p: Seq<char>|
                texts(all@).contains(p) <==> (index@.contains_key(p) || exists|k: int|
                    0 <= k < i + 1 && (#[trigger] sv[k]).0 == p) by {
                if p == sv[i as int].0 {
                    assert(sv[i as int].0 == p);
                }
            }
        }
        i = i + 1;
    }
    proof {
        assert forall|p: Seq<char>|
            texts(all@).contains(p) <==> (index@.contains_key(p) || lookup_spec(sv, p) is Some) by {
            lemma_lookup_found(sv, p);
        }
    }
    let ghost incl = |p: Seq<char>| lookup_spec(sv, p) is Some || !disk_for(ev, p).exists;
    let mut out: Vec<StatusEntry> = Vec::new();
    let m = all.len();
    let mut j: usize = 0;
    while j < m
        invariant
            index.wf(),
            sv == scanned_view(scanned@),
            ev == scanned_view(elsewhere@),
            incl == (|p: Seq<char>| lookup_spec(sv, p) is Some || !disk_for(ev, p).exists),
            m == all@.len(),
            j <= m,
            forall|p: Seq<char>|
                texts(all@).contains(p) <==> (index@.contains_key(p) || lookup_spec(sv, p) is Some),
            entry_paths(views(out@)) == texts(all@).subrange(0, j as int).filter(incl),
            forall|k: int|
                0 <= k < out@.len() ==> (#[trigger] out@[k])@ == status_of(
                    index@,
                    sv,
                    quick,
                    out@[k]@.path,
                ),
        decreases m - j,
    {
        let p = all[j].as_str();
        let ghost x = all@[j as int]@;
        let ghost prev = texts(all@).subrange(0, j as int);
        assert(texts(all@)[j as int] == x);
        assert(texts(all@).contains(x));
        assert(texts(all@).subrange(0, j + 1) =~= prev.push(x));
        proof {
            prev.lemma_filter_push(x, incl);
        }
        let ghost before = out@;
        match find_scanned(scanned, p) {
            Some(k) => {
                out.push(classify(p, index.get_file(p), &scanned[k].1, quick));
                assert(entry_paths(views(out@)) =~= entry_paths(views(before)).push(x));
            },
            None => {
                let present = match find_scanned(elsewhere, p) {
                    Some(k) => elsewhere[k].1.exists,
                    None => false,
                };
                if !present {
                    let b = index.get_file(p);
                    match b {
                        Some(e) => {
                            out.push(
                                StatusEntry {
                                    path: String::from_str(p),
                                    status: FileStatus::Deleted,
                                    current_size: None,
                                    backup_size: Some(e.size),
                                },
                            );
                            assert(entry_paths(views(out@)) =~= entry_paths(views(before)).push(x));
                        },
                        None => {},
                    }
                }
            },
        }
        j = j + 1;
    }
    proof {
        let all_t = texts(all@);
        assert(all_t.subrange(0, m as int) =~= all_t);
        let f = all_t.filter(incl);
        let rv = views(out@);
        assert forall|a: int, b: int| 0 <= a < b < f.len() implies crate::paths::path_lt(
            #[trigger] f[a],
            #[trigger] f[b],
        ) by {
            crate::paths::lemma_filter_sorted(all_t, incl, a, b);
        }
        assert forall|p: Seq<char>| f.contains(p) <==> reported(index@, sv, ev, p) by {
            if f.contains(p) {
                all_t.lemma_filter_contains_rev(incl, p);
                let k = choose|k: int| 0 <= k < f.len() && f[k] == p;
                all_t.filter_lemma(incl);
                assert(incl(f[k]));
            }
            if reported(index@, sv, ev, p) {
                assert(all_t.contains(p));
                let k = choose|k: int| 0 <= k < all_t.len() && all_t[k] == p;
                all_t.lemma_filter_contains(incl, k);
            }
        }
        assert forall|k: int| 0 <= k < rv.len() implies #[trigger] rv[k] == status_of(
            index@,
            sv,
            quick,
            rv[k].path,
        ) by {
            assert(rv[k] == out@[k]@);
        }
    }
    out
}

/// Status is a function of its inputs: two reports that are right for the
/// same index and the same disk are the same report, line for line.
pub proof fn lemma_status_deterministic(
    index: Map<Seq<char>, FileEntryView>,
    scanned: Seq<(Seq<char>, DiskStateView)>,
    elsewhere: Seq<(Seq<char>, DiskStateView)>,
    quick: bool,
    r1: Seq<StatusEntryView>,
    r2: Seq<StatusEntryView>,
)
    requires
        status_report(index, scanned, elsewhere, quick, r1),
        status_report(index, scanned, elsewhere, quick, r2),
    ensures
        r1 == r2,
{
    lemma_sorted_unique(entry_paths(r1), entry_paths(r2));
    assert(r1.len() == entry_paths(r1).len());
    assert forall|i: int| 0 <= i < r1.len() implies r1[i] == r2[i] by {
        assert(entry_paths(r1)[i] == r1[i].path);
        assert(entry_paths(r2)[i] == r2[i].path);
    }
    assert(r1 =~= r2);
}

/// An index entry that the scan no longer finds is deleted exactly when its
/// file is missing on disk; while the file is there it is an orphan and has
/// no line in the report.
pub proof fn lemma_deleted_iff_missing(
    index: Map<Seq<char>, FileEntryView>,
    scanned: Seq<(Seq<char>, DiskStateView)>,
    elsewhere: Seq<(Seq<char>, DiskStateView)>,
    quick: bool,
    r: Seq<StatusEntryView>,
    p: Seq<char>,
)
    requires
        status_report(index, scanned, elsewhere, quick, r),
        index.contains_key(p),
        lookup_spec(scanned, p) is None,
    ensures
        entry_paths(r).contains(p) <==> !disk_for(elsewhere, p).exists,
        forall|i: int| 0 <= i < r.len() && (#[trigger] r[i]).path == p ==> r[i].status == FileStatus::Deleted,
{
}

/// Quick mode looks at size and modification time only: a change of content
/// that keeps both is unchanged in quick mode and modified in full mode.
pub proof fn lemma_quick_mode_limitation(
    path: Seq<char>,
    backup: FileEntryView,
    disk: DiskStateView,
)
    requires
        disk.exists,
        disk.size == Some(backup.size),
        disk.mtime == backup.last_modified,
        disk.hash is Some,
        disk.hash != Some(backup.hash),
    ensures
        classify_spec(path, Some(backup), disk, true).status == FileStatus::Unchanged,
        classify_spec(path, Some(backup), disk, false).status == FileStatus::Modified,
{
}

/// The index entries that the current scan no longer finds: their paths
/// match no tracked pattern any more.
pub open spec fn is_orphan(index: Map<Seq<char>, FileEntryView>, current: Seq<Seq<char>>, p: Seq<char>) -> bool {
    index.contains_key(p) && !current.contains(p)
}

/// The orphaned paths of `index` against the files the scan found, in the
/// order of paths.
pub fn orphaned_paths(index: &Index, current: &Vec<String>) -> (r: Vec<String>)
    requires
        index.wf(),
    ensures
        strictly_sorted(texts(r@)),
        forall|p: Seq<char>| texts(r@).contains(p) <==> is_orphan(index@, texts(current@), p),
{
    let keys = index.sorted_paths();
    let ghost sel = |p: Seq<char>| !texts(current@).contains(p);
    let mut out: Vec<String> = Vec::new();
    let n = keys.len();
    let mut i: usize = 0;
    while i < n
        invariant
            n == keys@.len(),
            i <= n,
            strictly_sorted(texts(keys@)),
            forall|p: Seq<char>| texts(keys@).contains(p) <==> index@.contains_key(p),
            sel == (|p: Seq<char>| !texts(current@).contains(p)),
            texts(out@) == texts(keys@).subrange(0, i as int).filter(sel),
        decreases n - i,
    {
        let ghost prev = texts(keys@).subrange(0, i as int);
        let ghost x = keys@[i as int]@;
        assert(texts(keys@)[i as int] == x);
        assert(texts(keys@).subrange(0, i + 1) =~= prev.push(x));
        proof {
            prev.lemma_filter_push(x, sel);
        }
        let ghost old_out = out@;
        if !listed(current, keys[i].as_str()) {
            out.push(keys[i].clone());
            assert(texts(out@) =~= texts(old_out).push(x));
        }
        i = i + 1;
    }
    proof {
        let all = texts(keys@);
        assert(all.subrange(0, n as int) =~= all);
        let f = all.filter(sel);
        all.filter_lemma(sel);
        assert forall|a: int, b: int| 0 <= a < b < f.len() implies crate::paths::path_lt(
            #[trigger] f[a],
            #[trigger] f[b],
        ) by {
            crate::paths::lemma_filter_sorted(all, sel, a, b);
        }
        assert forall|p: Seq<char>| f.contains(p) <==> is_orphan(index@, texts(current@), p) by {
            if f.contains(p) {
                all.lemma_filter_contains_rev(sel, p);
                let k = choose|k: int| 0 <= k < f.len() && f[k] == p;
                assert(sel(f[k]));
            }
            if is_orphan(index@, texts(current@), p) {
                let k = choose|k: int| 0 <= k < all.len() && all[k] == p;
                all.lemma_filter_contains(sel, k);
            }
        }
    }
    out
}

/// Whether `path` is among `list`.
pub fn listed(list: &Vec<String>, path: &str) -> (r: bool)
    ensures
        r == texts(list@).contains(path@),
{
    let n = list.len();
    let mut i: usize = 0;
    while i < n
        invariant
            n == list@.len(),
            i <= n,
            forall|k: int| 0 <= k < i ==> (#[trigger] list@[k])@ != path@,
        decreases n - i,
    {
        if same_text(list[i].as_str(), path) {
            assert(texts(list@)[i as int] == path@);
            return true;
        }
        i = i + 1;
    }
    proof {
        if texts(list@).contains(path@) {
            let k = choose|k: int| 0 <= k < n && texts(list@)[k] == path@;
            assert(list@[k]@ == path@);
        }
    }
    false
}

/// Drops the index entries of `orphans`. Only the index changes: the files
/// on disk and their blobs are not this function's to touch.
pub fn remove_orphans(index: &mut Index, orphans: &Vec<String>)
    requires
        old(index).wf(),
    ensures
        final(index).wf(),
        forall|p: Seq<char>|
            #[trigger] final(index)@.contains_key(p) <==> (old(index)@.contains_key(p) && !texts(
                orphans@,
            ).contains(p)),
        forall|p: Seq<char>| #[trigger] final(index)@.contains_key(p) ==> final(index)@[p] == old(index)@[p],
{
    let n = orphans.len();
    let mut i: usize = 0;
    while i < n
        invariant
            n == orphans@.len(),
            i <= n,
            index.wf(),
            forall|p: Seq<char>|
                #[trigger] index@.contains_key(p) <==> (old(index)@.contains_key(p) && !texts(
                    orphans@.subrange(0, i as int),
                ).contains(p)),
            forall|p: Seq<char>| #[trigger] index@.contains_key(p) ==> index@[p] == old(index)@[p],
        decreases n - i,
    {
        index.remove_file(orphans[i].as_str());
        proof {
            assert(texts(orphans@.subrange(0, i + 1)) =~= texts(orphans@.subrange(0, i as int)).push(
                orphans@[i as int]@,
            ));
            assert forall|p: Seq<char>|
                #[trigger] index@.contains_key(p) <==> (old(index)@.contains_key(p) && !texts(
                    orphans@.subrange(0, i + 1),
                ).contains(p)) by {
                crate::paths::lemma_contains_push(
                    texts(orphans@.subrange(0, i as int)),
                    orphans@[i as int]@,
                    p,
                );
            }
        }
        i = i + 1;
    }
    assert(orphans@.subrange(0, n as int) =~= orphans@);
}

/// Untracking a path flags it: an index entry that the scan no longer finds
/// is orphaned, and cleaning up the orphans removes its entry and keeps
/// every other entry as it was.
pub proof fn lemma_orphan_lifecycle(
    index: Map<Seq<char>, FileEntryView>,
    current: Seq<Seq<char>>,
    orphans: Seq<Seq<char>>,
    after: Map<Seq<char>, FileEntryView>,
    p: Seq<char>,
)
    requires
        forall|q: Seq<char>| orphans.contains(q) <==> is_orphan(index, current, q),
        forall|q: Seq<char>|
            #[trigger] after.contains_key(q) <==> (index.contains_key(q) && !orphans.contains(q)),
        forall|q: Seq<char>| #[trigger] after.contains_key(q) ==> after[q] == index[q],
        index.contains_key(p),
        !current.contains(p),
    ensures
        orphans.contains(p),
        !after.contains_key(p),
        forall|q: Seq<char>|
            index.contains_key(q) && current.contains(q) ==> #[trigger] after.contains_key(q)
                && after[q] == index[q],
{
}

} // verus!
