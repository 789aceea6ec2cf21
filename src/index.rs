//! The index: what was last backed up of each tracked path.
use crate::paths::{insert_sorted, same_text, strictly_sorted, texts};
use vstd::prelude::*;

verus! {

/// The fingerprint of one file as it was backed up.
#[derive(Clone, Debug)]
pub struct FileEntry {
    pub path: String,
    /// Hex-encoded digest of the content.
    pub hash: String,
    /// Unix seconds.
    pub last_modified: u64,
    /// Bytes.
    pub size: u64,
}

pub ghost struct FileEntryView {
    pub path: Seq<char>,
    pub hash: Seq<char>,
    pub last_modified: u64,
    pub size: u64,
}

impl View for FileEntry {
    type V = FileEntryView;

    open spec fn view(&self) -> FileEntryView {
        FileEntryView {
            path: self.path@,
            hash: self.hash@,
            last_modified: self.last_modified,
            size: self.size,
        }
    }
}

/// A copy of `e` that the contracts can follow.
pub fn copy_entry(e: &FileEntry) -> (r: FileEntry)
    ensures
        r@ == e@,
{
    FileEntry { path: e.path.clone(), hash: e.hash.clone(), last_modified: e.last_modified, size: e.size }
}

/// Tracked path to fingerprint; every path at most once.
pub struct Index {
    records: Vec<(String, FileEntry)>,
    model: Ghost<Map<Seq<char>, FileEntryView>>,
}

impl View for Index {
    type V = Map<Seq<char>, FileEntryView>;

    closed spec fn view(&self) -> Map<Seq<char>, FileEntryView> {
        self.model@
    }
}

impl Index {
    /// The records hold each path once, and the model says what they hold.
    pub closed spec fn wf(&self) -> bool {
        &&& forall|i: int, j: int|
            0 <= i < j < self.records@.len() ==> (#[trigger] self.records@[i]).0@
                != (#[trigger] self.records@[j]).0@
        &&& forall|k: Seq<char>|
            #[trigger] self.model@.contains_key(k) <==> exists|i: int|
                0 <= i < self.records@.len() && (#[trigger] self.records@[i]).0@ == k
        &&& forall|i: int|
            0 <= i < self.records@.len() ==> self.model@[(#[trigger] self.records@[i]).0@]
                == self.records@[i].1@
    }

    /// The empty index.
    pub fn new() -> (r: Index)
        ensures
            r.wf(),
            r@ == Map::<Seq<char>, FileEntryView>::empty(),
    {
        Index { records: Vec::new(), model: Ghost(Map::empty()) }
    }

    fn position(&self, path: &str) -> (r: Option<usize>)
        requires
            self.wf(),
        ensures
            match r {
                Some(i) => i < self.records@.len() && self.records@[i as int].0@ == path@,
                None => !self@.contains_key(path@),
            },
    {
        let n = self.records.len();
        let mut i: usize = 0;
        while i < n
            invariant
                self.wf(),
                n == self.records@.len(),
                i <= n,
                forall|k: int| 0 <= k < i ==> (#[trigger] self.records@[k]).0@ != path@,
            decreases n - i,
        {
            if same_text(self.records[i].0.as_str(), path) {
                return Some(i);
            }
            i = i + 1;
        }
        None
    }

    /// Records `entry` under `path`, replacing what was there.
    pub fn add_file(&mut self, path: String, entry: FileEntry)
        requires
            old(self).wf(),
        ensures
            final(self).wf(),
            final(self)@ == old(self)@.insert(path@, entry@),
    {
        let ghost key = path@;
        let ghost val = entry@;
        match self.position(path.as_str()) {
            Some(i) => {
                self.records.set(i, (path, entry));
                self.model = Ghost(self.model@.insert(key, val));
                assert(self.records@[i as int].0@ == key);
                assert forall|k: Seq<char>| #[trigger] self.model@.contains_key(k) <==> exists|j: int|
                    0 <= j < self.records@.len() && (#[trigger] self.records@[j]).0@ == k by {
                    if self.model@.contains_key(k) && k != key {
                        let j = choose|j: int|
                            0 <= j < old(self).records@.len() && (#[trigger] old(self).records@[j]).0@
                                == k;
                        assert(self.records@[j] == old(self).records@[j]);
                    }
                    if exists|j: int| 0 <= j < self.records@.len() && (#[trigger] self.records@[j]).0@ == k {
                        let j = choose|j: int|
                            0 <= j < self.records@.len() && (#[trigger] self.records@[j]).0@ == k;
                        if j != i {
                            assert(self.records@[j] == old(self).records@[j]);
                        }
                    }
                }
            },
            None => {
                self.records.push((path, entry));
                self.model = Ghost(self.model@.insert(key, val));
                let ghost n = self.records@.len() - 1;
                assert(self.records@[n].0@ == key);
                assert forall|k: Seq<char>| #[trigger] self.model@.contains_key(k) <==> exists|j: int|
                    0 <= j < self.records@.len() && (#[trigger] self.records@[j]).0@ == k by {
                    if self.model@.contains_key(k) && k != key {
                        let j = choose|j: int|
                            0 <= j < old(self).records@.len() && (#[trigger] old(self).records@[j]).0@
                                == k;
                        assert(self.records@[j] == old(self).records@[j]);
                    }
                }
            },
        }
    }

    /// Forgets `path`; hands back what was recorded under it.
    pub fn remove_file(&mut self, path: &str) -> (r: Option<FileEntry>)
        requires
            old(self).wf(),
        ensures
            final(self).wf(),
            final(self)@ == old(self)@.remove(path@),
            match r {
                Some(e) => old(self)@.contains_key(path@) && e@ == old(self)@[path@],
                None => !old(self)@.contains_key(path@),
            },
    {
        match self.position(path) {
            Some(i) => {
                let ghost old_recs = self.records@;
                let (_, e) = self.records.remove(i);
                self.model = Ghost(self.model@.remove(path@));
                assert forall|k: Seq<char>| #[trigger] self.model@.contains_key(k) <==> exists|j: int|
                    0 <= j < self.records@.len() && (#[trigger] self.records@[j]).0@ == k by {
                    if self.model@.contains_key(k) {
                        let j = choose|j: int|
                            0 <= j < old_recs.len() && (#[trigger] old_recs[j]).0@ == k;
                        if j < i {
                            assert(self.records@[j] == old_recs[j]);
                        } else {
                            assert(j != i);
                            assert(self.records@[j - 1] == old_recs[j]);
                        }
                    }
                    if exists|j: int| 0 <= j < self.records@.len() && (#[trigger] self.records@[j]).0@ == k {
                        let j = choose|j: int|
                            0 <= j < self.records@.len() && (#[trigger] self.records@[j]).0@ == k;
                        if j < i {
                            assert(old_recs[j] == self.records@[j]);
                        } else {
                            assert(old_recs[j + 1] == self.records@[j]);
                        }
                    }
                }
                assert forall|a: int, b: int|
                    0 <= a < b < self.records@.len() implies (#[trigger] self.records@[a]).0@
                        != (#[trigger] self.records@[b]).0@ by {
                    let a0 = if a < i { a } else { a + 1 };
                    let b0 = if b < i { b } else { b + 1 };
                    assert(self.records@[a] == old_recs[a0]);
                    assert(self.records@[b] == old_recs[b0]);
                }
                assert forall|j: int| 0 <= j < self.records@.len() implies self.model@[(
                #[trigger] self.records@[j]).0@] == self.records@[j].1@ by {
                    let j0 = if j < i { j } else { j + 1 };
                    assert(self.records@[j] == old_recs[j0]);
                }
                Some(e)
            },
            None => {
                assert(self.model@.remove(path@) =~= self.model@);
                None
            },
        }
    }

    /// What is recorded under `path`.
    pub fn get_file(&self, path: &str) -> (r: Option<&FileEntry>)
        requires
            self.wf(),
        ensures
            match r {
                Some(e) => self@.contains_key(path@) && e@ == self@[path@],
                None => !self@.contains_key(path@),
            },
    {
        match self.position(path) {
            Some(i) => Some(&self.records[i].1),
            None => None,
        }
    }

    /// Whether `path` has a record.
    pub fn contains_file(&self, path: &str) -> (r: bool)
        requires
            self.wf(),
        ensures
            r == self@.contains_key(path@),
    {
        self.position(path).is_some()
    }

    /// Whether no path has a record.
    pub fn is_empty(&self) -> (r: bool)
        requires
            self.wf(),
        ensures
            r == (self@ == Map::<Seq<char>, FileEntryView>::empty()),
    {
        if self.records.len() == 0 {
            assert(self@ =~= Map::<Seq<char>, FileEntryView>::empty());
            true
        } else {
            assert(self@.contains_key(self.records@[0].0@));
            false
        }
    }

    /// Every recorded path, each once, in the order of paths.
    pub fn sorted_paths(&self) -> (r: Vec<String>)
        requires
            self.wf(),
        ensures
            strictly_sorted(texts(r@)),
            forall|p: Seq<char>| texts(r@).contains(p) <==> self@.contains_key(p),
    {
        let mut out: Vec<String> = Vec::new();
        let n = self.records.len();
        let mut i: usize = 0;
        while i < n
            invariant
                self.wf(),
                n == self.records@.len(),
                i <= n,
                strictly_sorted(texts(out@)),
                forall|p: Seq<char>|
                    texts(out@).contains(p) <==> exists|k: int|
                        0 <= k < i && (#[trigger] self.records@[k]).0@ == p,
            decreases n - i,
        {
            insert_sorted(&mut out, self.records[i].0.clone());
            proof {
                assert forall|p: Seq<char>|
                    texts(out@).contains(p) <==> exists|k: int|
                        0 <= k < i + 1 && (#[trigger] self.records@[k]).0@ == p by {
                    if p == self.records@[i as int].0@ {
                        assert(self.records@[i as int].0@ == p);
                    }
                }
            }
            i = i + 1;
        }
        out
    }
}

} // verus!
