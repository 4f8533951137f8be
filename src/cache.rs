//! The content-addressed resource cache: blob names, the manifest from the
//! references found in documents to cache paths, and the blobs a document found.
use vstd::prelude::*;
use vstd::string::*;
use crate::text::{chars_of, decimal, decimal_of, string_of, append_chars, append_str};

verus! {

/// The lowercase hexadecimal SHA-256 digest of some bytes.
pub uninterp spec fn sha256_hex_of(b: Seq<u8>) -> Seq<char>;

/// Relies on `sha_rs::Sha256::digest`: the SHA-256 digest of `b`, as
/// `hex::encode` writes it (two lowercase hexadecimal digits per byte of the
/// 32-byte digest). Its padding computes `8 * b.len()`, which must fit.
#[verifier::external_body]
fn sha256_hex(b: &Vec<u8>) -> (r: String)
    requires
        b@.len() < 0x1000_0000_0000_0000,
    ensures
        r@ == sha256_hex_of(b@),
        r@.len() == 64,
{
    let hasher = <sha_rs::Sha256 as sha_rs::Sha>::new();
    <sha_rs::Sha256 as sha_rs::Sha>::digest(&hasher, b.as_slice())
}

/// The name of the blob of `bytes`: `{digest}-{length}` and `.{extension}` if any.
pub open spec fn blob_name(bytes: Seq<u8>, extension: Option<Seq<char>>) -> Seq<char> {
    sha256_hex_of(bytes) + "-"@ + decimal(bytes.len()) + match extension {
        Some(e) => "."@ + e,
        None => Seq::empty(),
    }
}

/// Where a blob is found, from the root of the output.
pub open spec fn cache_path(name: Seq<char>) -> Seq<char> {
    "/.cache/"@ + name
}

/// The name of the blob of `bytes`, as `blob_name` says.
pub fn cache_file_name(bytes: &Vec<u8>, extension: Option<&str>) -> (r: String)
    requires
        bytes@.len() < 0x1000_0000_0000_0000,
    ensures
        r@ == blob_name(
            bytes@,
            match extension {
                Some(e) => Some(e@),
                None => None,
            },
        ),
{
    let digest = sha256_hex(bytes);
    let mut out = chars_of(digest.as_str());
    append_str(&mut out, "-");
    let len = decimal_of(bytes.len());
    append_chars(&mut out, &len);
    match extension {
        Some(e) => {
            append_str(&mut out, ".");
            append_str(&mut out, e);
        },
        None => {},
    }
    proof {
        assert(out@ =~= blob_name(
            bytes@,
            match extension {
                Some(e) => Some(e@),
                None => None,
            },
        ));
    }
    string_of(&out)
}

/// A mapping from strings to strings; where a key was stored twice, the later entry counts.
pub struct StringTable {
    entries: Vec<(String, String)>,
}

pub open spec fn table_model(entries: Seq<(String, String)>) -> Map<Seq<char>, Seq<char>>
    decreases entries.len(),
{
    if entries.len() == 0 {
        Map::empty()
    } else {
        table_model(entries.drop_last()).insert(entries.last().0@, entries.last().1@)
    }
}

proof fn lemma_table_last(entries: Seq<(String, String)>, i: int)
    requires
        0 <= i < entries.len(),
        forall|j: int| i < j < entries.len() ==> (#[trigger] entries[j]).0@ != entries[i].0@,
    ensures
        table_model(entries).contains_key(entries[i].0@),
        table_model(entries)[entries[i].0@] == entries[i].1@,
    decreases entries.len(),
{
    if i < entries.len() - 1 {
        let front = entries.drop_last();
        assert forall|j: int| i < j < front.len() implies (#[trigger] front[j]).0@ != front[i].0@ by {
            assert(front[j] == entries[j]);
        }
        lemma_table_last(front, i);
        assert(entries[entries.len() - 1].0@ != entries[i].0@);
    }
}

proof fn lemma_table_absent(entries: Seq<(String, String)>, k: Seq<char>)
    requires
        forall|j: int| 0 <= j < entries.len() ==> (#[trigger] entries[j]).0@ != k,
    ensures
        !table_model(entries).contains_key(k),
    decreases entries.len(),
{
    if entries.len() > 0 {
        lemma_table_absent(entries.drop_last(), k);
        assert(entries[entries.len() - 1].0@ != k);
    }
}

impl StringTable {
    pub closed spec fn model(&self) -> Map<Seq<char>, Seq<char>> {
        table_model(self.entries@)
    }

    pub fn new() -> (r: StringTable)
        ensures
            r.model() == Map::<Seq<char>, Seq<char>>::empty(),
    {
        StringTable { entries: Vec::new() }
    }

    pub fn insert(&mut self, key: String, value: String)
        ensures
            final(self).model() == old(self).model().insert(key@, value@),
    {
        let ghost before = self.entries@;
        self.entries.push((key, value));
        assert(self.entries@.drop_last() =~= before);
    }

    pub fn get(&self, key: &str) -> (r: Option<&String>)
        ensures
            match r {
                Some(v) => self.model().contains_key(key@) && self.model()[key@] == v@,
                None => !self.model().contains_key(key@),
            },
    {
        let mut i: usize = self.entries.len();
        while i > 0
            invariant
                i <= self.entries.len(),
                forall|j: int| i <= j < self.entries.len() ==> (#[trigger] self.entries@[j]).0@ != key@,
            decreases i,
        {
            i -= 1;
            if crate::value::str_eq(self.entries[i].0.as_str(), key) {
                proof { lemma_table_last(self.entries@, i as int); }
                return Some(&self.entries[i].1);
            }
        }
        proof { lemma_table_absent(self.entries@, key@); }
        None
    }

    /// The entries in the order they were stored, for persisting the table.
    pub fn entries(&self) -> (r: &Vec<(String, String)>)
        ensures
            table_model(r@) == self.model(),
    {
        &self.entries
    }
}

/// Blobs found while processing a document and not yet written, by name.
pub struct PendingBlobs {
    blobs: Vec<(String, Vec<u8>)>,
}

pub open spec fn blobs_model(blobs: Seq<(String, Vec<u8>)>) -> Map<Seq<char>, Seq<u8>>
    decreases blobs.len(),
{
    if blobs.len() == 0 {
        Map::empty()
    } else {
        blobs_model(blobs.drop_last()).insert(blobs.last().0@, blobs.last().1@)
    }
}

proof fn lemma_blobs_absent(blobs: Seq<(String, Vec<u8>)>, k: Seq<char>)
    requires
        forall|j: int| 0 <= j < blobs.len() ==> (#[trigger] blobs[j]).0@ != k,
    ensures
        !blobs_model(blobs).contains_key(k),
    decreases blobs.len(),
{
    if blobs.len() > 0 {
        lemma_blobs_absent(blobs.drop_last(), k);
        assert(blobs[blobs.len() - 1].0@ != k);
    }
}

proof fn lemma_blobs_present(blobs: Seq<(String, Vec<u8>)>, i: int)
    requires
        0 <= i < blobs.len(),
    ensures
        blobs_model(blobs).contains_key(blobs[i].0@),
    decreases blobs.len(),
{
    if i < blobs.len() - 1 {
        lemma_blobs_present(blobs.drop_last(), i);
        assert(blobs.drop_last()[i] == blobs[i]);
    }
}

/// The blobs after storing `bytes` under `name`: a name already present keeps its blob.
pub open spec fn blobs_after(blobs: Map<Seq<char>, Seq<u8>>, name: Seq<char>, bytes: Seq<u8>) -> Map<Seq<char>, Seq<u8>> {
    if blobs.contains_key(name) {
        blobs
    } else {
        blobs.insert(name, bytes)
    }
}

impl PendingBlobs {
    pub closed spec fn model(&self) -> Map<Seq<char>, Seq<u8>> {
        blobs_model(self.blobs@)
    }

    pub fn new() -> (r: PendingBlobs)
        ensures
            r.model() == Map::<Seq<char>, Seq<u8>>::empty(),
    {
        PendingBlobs { blobs: Vec::new() }
    }

    /// Whether a blob is pending under `name`.
    pub fn contains(&self, name: &str) -> (r: bool)
        ensures
            r == self.model().contains_key(name@),
    {
        let mut i: usize = 0;
        while i < self.blobs.len()
            invariant
                i <= self.blobs.len(),
                forall|j: int| 0 <= j < i ==> (#[trigger] self.blobs@[j]).0@ != name@,
            decreases self.blobs.len() - i,
        {
            if crate::value::str_eq(self.blobs[i].0.as_str(), name) {
                proof { lemma_blobs_present(self.blobs@, i as int); }
                return true;
            }
            i += 1;
        }
        proof { lemma_blobs_absent(self.blobs@, name@); }
        false
    }

    /// Stores `bytes` under `name` unless a blob is pending under that name.
    pub fn add(&mut self, name: String, bytes: Vec<u8>)
        ensures
            final(self).model() == blobs_after(old(self).model(), name@, bytes@),
    {
        if !self.contains(name.as_str()) {
            let ghost before = self.blobs@;
            self.blobs.push((name, bytes));
            assert(self.blobs@.drop_last() =~= before);
        }
    }

    /// The pending blobs, in the order they were found, for writing them out.
    pub fn blobs(&self) -> (r: &Vec<(String, Vec<u8>)>)
        ensures
            blobs_model(r@) == self.model(),
    {
        &self.blobs
    }
}

/// Puts `bytes`, fetched from `link`, into the cache: the blob is pending
/// under its content-derived name (unless one is pending there already), the
/// manifest maps `link` to the blob's cache path, and that path is returned.
pub fn insert_into_cache(
    manifest: &mut StringTable,
    pending: &mut PendingBlobs,
    link: String,
    bytes: Vec<u8>,
    extension: Option<&str>,
) -> (r: String)
    requires
        bytes@.len() < 0x1000_0000_0000_0000,
    ensures
        r@ == cache_path(blob_name(bytes@, match extension { Some(e) => Some(e@), None => None })),
        final(pending).model() == blobs_after(
            old(pending).model(),
            blob_name(bytes@, match extension { Some(e) => Some(e@), None => None }),
            bytes@,
        ),
        final(manifest).model() == old(manifest).model().insert(link@, r@),
{
    let name = cache_file_name(&bytes, extension);
    let mut path = chars_of("/.cache/");
    let name_chars = chars_of(name.as_str());
    append_chars(&mut path, &name_chars);
    let path = string_of(&path);
    pending.add(name, bytes);
    manifest.insert(link, path.clone());
    path
}

/// Inserting the same bytes again changes nothing: the pending blobs stay as
/// they were after the first insertion (no second blob), and the cache path
/// is the same.
pub proof fn lemma_insert_idempotent(
    blobs: Map<Seq<char>, Seq<u8>>,
    bytes: Seq<u8>,
    extension: Option<Seq<char>>,
)
    ensures
        blobs_after(blobs_after(blobs, blob_name(bytes, extension), bytes), blob_name(bytes, extension), bytes)
            == blobs_after(blobs, blob_name(bytes, extension), bytes),
        blobs_after(blobs, blob_name(bytes, extension), bytes).dom()
            == blobs.dom().insert(blob_name(bytes, extension)),
{
    let name = blob_name(bytes, extension);
    if blobs.contains_key(name) {
        assert(blobs.dom().insert(name) =~= blobs.dom());
    }
}

} // verus!
