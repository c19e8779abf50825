//! Writing to a cache: the content first, then the index entry.
use vstd::prelude::*;
use crate::algorithm::Algorithm;
use crate::cache::{Cache, CacheView};
use crate::content::{address_of, written};
use crate::index::EntryView;
use crate::integrity::Integrity;
use crate::writer::Writer;

verus! {

/// The entry that a write of `data` under `key` appends.
pub open spec fn entry_of(
    key: Seq<char>,
    data: Seq<u8>,
    algorithm: Algorithm,
    time: u128,
    metadata: Seq<u8>,
) -> EntryView {
    EntryView {
        key,
        integrity: address_of(algorithm, data),
        time,
        size: data.len() as u64,
        metadata,
    }
}

/// The cache after the first half of a write: the blob is in the content
/// store, and the index is as it was.
pub open spec fn stored_only(cache: CacheView, data: Seq<u8>, algorithm: Algorithm) -> CacheView {
    CacheView { index: cache.index, content: written(cache.content, algorithm, data) }
}

/// The cache after a whole write of `data` under `key`: the blob is in the
/// content store, and the entry is the last of the index.
pub open spec fn put(
    cache: CacheView,
    key: Seq<char>,
    data: Seq<u8>,
    algorithm: Algorithm,
    time: u128,
    metadata: Seq<u8>,
) -> CacheView {
    CacheView {
        index: cache.index.push(entry_of(key, data, algorithm, time, metadata)),
        content: written(cache.content, algorithm, data),
    }
}

/// Writes `content` under `key`: hashes it with `algorithm`, keeps it in
/// the content store under its digest, and only then appends the entry that
/// binds `key` to the digest, with `time` and `metadata`. Gives the digest
/// back.
pub fn data(
    cache: &mut Cache,
    key: &str,
    content: &[u8],
    algorithm: Algorithm,
    time: u128,
    metadata: Vec<u8>,
) -> (sri: Integrity)
    ensures
        sri@ == address_of(algorithm, content@),
        final(cache)@ == put(old(cache)@, key@, content@, algorithm, time, metadata@),
{
    let mut writer = Put::new(key, algorithm, time, metadata);
    writer.write(content);
    assert(Seq::<u8>::empty() + content@ =~= content@);
    writer.commit(cache)
}

/// A write in progress: the content comes in chunks, and nothing shows in
/// the cache before [`Put::commit`]. A `Put` that is dropped leaves the
/// cache as it was.
pub struct Put {
    key: String,
    time: u128,
    metadata: Vec<u8>,
    writer: Writer,
}

impl Put {
    /// The invariant of the writer inside.
    pub closed spec fn wf(&self) -> bool {
        self.writer.wf()
    }

    /// The key the content is written under.
    pub closed spec fn key(&self) -> Seq<char> {
        self.key@
    }

    /// The algorithm the content is hashed with.
    pub closed spec fn algorithm(&self) -> Algorithm {
        self.writer.algorithm()
    }

    /// The time the entry will bear.
    pub closed spec fn time(&self) -> u128 {
        self.time
    }

    /// What the entry will have attached.
    pub closed spec fn metadata(&self) -> Seq<u8> {
        self.metadata@
    }

    /// The bytes written so far.
    pub closed spec fn pending(&self) -> Seq<u8> {
        self.writer.pending()
    }

    /// Begins a write under `key` to which nothing has been written.
    pub fn new(key: &str, algorithm: Algorithm, time: u128, metadata: Vec<u8>) -> (put: Put)
        ensures
            put.wf(),
            put.key() == key@,
            put.algorithm() == algorithm,
            put.time() == time,
            put.metadata() == metadata@,
            put.pending() == Seq::<u8>::empty(),
    {
        Put { key: key.to_owned(), time, metadata, writer: Writer::new(algorithm) }
    }

    /// Takes all of `chunk`, after what was written before, and gives its
    /// length.
    pub fn write(&mut self, chunk: &[u8]) -> (n: usize)
        requires
            old(self).wf(),
        ensures
            final(self).wf(),
            final(self).key() == old(self).key(),
            final(self).algorithm() == old(self).algorithm(),
            final(self).time() == old(self).time(),
            final(self).metadata() == old(self).metadata(),
            final(self).pending() == old(self).pending() + chunk@,
            n == chunk@.len(),
    {
        self.writer.write(chunk)
    }

    /// Finishes the write: commits the content to the content store, and
    /// only then appends the entry to the index. Gives the digest back.
    pub fn commit(self, cache: &mut Cache) -> (sri: Integrity)
        requires
            self.wf(),
        ensures
            sri@ == address_of(self.algorithm(), self.pending()),
            final(cache)@ == put(
                old(cache)@,
                self.key(),
                self.pending(),
                self.algorithm(),
                self.time(),
                self.metadata(),
            ),
    {
        let size: u64 = self.writer.len() as u64;
        let sri = self.writer.commit(&mut cache.content);
        cache.index.insert(self.key.as_str(), sri.clone(), self.time, size, self.metadata);
        sri
    }
}

} // verus!
