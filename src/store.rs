//! The content store: blobs named by the digest of their bytes, sharded by
//! the digest's first two characters, written once.
use crate::paths::{join_path, join_spec, same_text, texts};
use vstd::prelude::*;

verus! {

/// A lower-case hex digit.
pub open spec fn is_lower_hex(c: char) -> bool {
    ('0' <= c && c <= '9') || ('a' <= c && c <= 'f')
}

/// The lower-case hex SHA-256 digest of `bytes`.
pub uninterp spec fn sha256_hex(bytes: Seq<u8>) -> Seq<char>;

/// Relies on sha2's Sha256 (through digest::Digest::digest) for the digest,
/// and on generic-array's LowerHex for its text: two lower-case hex digits
/// (`0-9`, `a-f`) for each of the 32 bytes.
#[verifier::external_body]
fn sha256_text(bytes: &[u8]) -> (r: String)
    ensures
        r@ == sha256_hex(bytes@),
        r@.len() == 64,
        forall|i: int| 0 <= i < r@.len() ==> is_lower_hex(#[trigger] r@[i]),
{
    format!("{:x}", <sha2::Sha256 as sha2::Digest>::digest(bytes))
}

/// The name of a blob: the hex digest of its content.
pub fn content_hash(bytes: &[u8]) -> (r: String)
    ensures
        r@ == sha256_hex(bytes@),
        r@.len() == 64,
        forall|i: int| 0 <= i < r@.len() ==> is_lower_hex(#[trigger] r@[i]),
{
    sha256_text(bytes)
}

/// Where the blob named `hash` lies under `root`: `<root>/<hash[0:2]>/<hash>`.
pub open spec fn location_spec(root: Seq<char>, hash: Seq<char>) -> Seq<char> {
    join_spec(join_spec(root, hash.subrange(0, 2)), hash)
}

/// Where the blob named `hash` lies under the store's `root` (its location).
pub fn get_file_storage_path(root: &str, hash: &str) -> (r: String)
    requires
        hash@.len() >= 2,
    ensures
        r@ == location_spec(root@, hash@),
{
    let shard = join_path(root, hash.substring_char(0, 2));
    join_path(shard.as_str(), hash)
}

/// The names of the blobs known to be in the store.
pub struct BlobSet {
    hashes: Vec<String>,
}

impl View for BlobSet {
    type V = Set<Seq<char>>;

    closed spec fn view(&self) -> Set<Seq<char>> {
        texts(self.hashes@).to_set()
    }
}

impl BlobSet {
    /// No blob known.
    pub fn new() -> (r: BlobSet)
        ensures
            r@ == Set::<Seq<char>>::empty(),
    {
        let r = BlobSet { hashes: Vec::new() };
        assert(r@ =~= Set::<Seq<char>>::empty());
        r
    }

    /// Whether the blob named `hash` is known to be stored.
    pub fn contains(&self, hash: &str) -> (r: bool)
        ensures
            r == self@.contains(hash@),
    {
        let n = self.hashes.len();
        let mut i: usize = 0;
        while i < n
            invariant
                n == self.hashes@.len(),
                i <= n,
                forall|k: int| 0 <= k < i ==> (#[trigger] self.hashes@[k])@ != hash@,
            decreases n - i,
        {
            if same_text(self.hashes[i].as_str(), hash) {
                assert(texts(self.hashes@)[i as int] == hash@);
                return true;
            }
            i = i + 1;
        }
        proof {
            if texts(self.hashes@).contains(hash@) {
                let k = choose|k: int| 0 <= k < n && texts(self.hashes@)[k] == hash@;
                assert(self.hashes@[k]@ == hash@);
            }
        }
        false
    }

    /// Notes that the blob named `hash` is stored.
    pub fn insert(&mut self, hash: String)
        ensures
            final(self)@ == old(self)@.insert(hash@),
    {
        self.hashes.push(hash);
        proof {
            assert(texts(self.hashes@) =~= texts(old(self).hashes@).push(hash@));
            texts(old(self).hashes@).lemma_push_to_set_commute(hash@);
        }
    }
}

/// What the store holds: blob name to content. Every blob is named by the
/// digest of its content.
pub open spec fn blobs_wf(blobs: Map<Seq<char>, Seq<u8>>) -> bool {
    forall|h: Seq<char>| #[trigger] blobs.contains_key(h) ==> sha256_hex(blobs[h]) == h
}

/// Storing `bytes`: written under their digest unless a blob of that name is
/// there already (write-once).
pub open spec fn put_spec(blobs: Map<Seq<char>, Seq<u8>>, bytes: Seq<u8>) -> Map<Seq<char>, Seq<u8>> {
    let h = sha256_hex(bytes);
    if blobs.contains_key(h) {
        blobs
    } else {
        blobs.insert(h, bytes)
    }
}

/// Content stored and later copied back out under its recorded digest has
/// that digest again: the store stays well named, holds the blob, and the
/// blob's digest is the one recorded when the content was stored.
pub proof fn lemma_round_trip(blobs: Map<Seq<char>, Seq<u8>>, bytes: Seq<u8>)
    requires
        blobs_wf(blobs),
    ensures
        blobs_wf(put_spec(blobs, bytes)),
        put_spec(blobs, bytes).contains_key(sha256_hex(bytes)),
        sha256_hex(put_spec(blobs, bytes)[sha256_hex(bytes)]) == sha256_hex(bytes),
{
    let after = put_spec(blobs, bytes);
    assert forall|h: Seq<char>| #[trigger] after.contains_key(h) implies sha256_hex(after[h]) == h by {
        if h != sha256_hex(bytes) {
            assert(blobs.contains_key(h));
        }
    }
}

} // verus!
