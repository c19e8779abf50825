//! Reading from a cache, by key or by digest.
use vstd::prelude::*;
use crate::algorithm::Algorithm;
use crate::cache::{Cache, CacheView};
use crate::content::{copy_outcome, read_outcome};
use crate::errors::Error;
use crate::hasher::checked;
use crate::index::{latest, Entry};
use crate::integrity::{Integrity, Sri};
use crate::reader::{chunk_len, Reader};

verus! {

/// Content opened for reading in chunks. What is read is hashed on the
/// way; [`Get::check`] says whether it hashed to the digest it was opened
/// under.
pub struct Get {
    reader: Reader,
}

impl Get {
    /// The invariant of the reader inside.
    pub closed spec fn wf(&self) -> bool {
        self.reader.wf()
    }

    /// The bytes of the content.
    pub closed spec fn source(&self) -> Seq<u8> {
        self.reader.source()
    }

    /// How many bytes have been read.
    pub closed spec fn position(&self) -> nat {
        self.reader.position()
    }

    /// The digest the content was opened under.
    pub closed spec fn expected(&self) -> Sri {
        self.reader.expected()
    }

    /// The bytes read so far.
    pub open spec fn consumed(&self) -> Seq<u8> {
        self.source().subrange(0, self.position() as int)
    }

    /// Reads the next bytes into the front of `buf`: as many as `buf` takes,
    /// or as are left. Gives their number; 0 means the end of the content,
    /// or a buffer without room. What `buf` held behind them stays.
    pub fn read(&mut self, buf: &mut Vec<u8>) -> (n: usize)
        requires
            old(self).wf(),
        ensures
            final(self).wf(),
            final(self).source() == old(self).source(),
            final(self).expected() == old(self).expected(),
            n == chunk_len(
                old(buf)@.len(),
                (old(self).source().len() - old(self).position()) as nat,
            ),
            final(self).position() == old(self).position() + n,
            final(self).position() <= final(self).source().len(),
            final(buf)@ == old(self).source().subrange(
                old(self).position() as int,
                old(self).position() + n,
            ) + old(buf)@.skip(n as int),
    {
        self.reader.read(buf)
    }

    /// Finishes the hash of the bytes read so far and compares it with the
    /// digest the content was opened under: the algorithm that was verified,
    /// or `IntegrityMismatch`.
    pub fn check(self) -> (outcome: Result<Algorithm, Error>)
        requires
            self.wf(),
        ensures
            outcome == checked(self.expected(), self.consumed()),
    {
        self.reader.check()
    }
}

/// What opening the blob under `sri` answers: the address and the bytes
/// that the reader is opened on, or `NotFound`.
pub open spec fn opened_hash(cache: CacheView, sri: Sri) -> Result<(Sri, Seq<u8>), Error> {
    if cache.content.dom().contains(sri) {
        Ok((sri, cache.content[sri]))
    } else {
        Err(Error::NotFound)
    }
}

/// What opening `key` answers: the address and the bytes that the reader
/// is opened on, or `NotFound` where the key does not resolve or its blob
/// is gone.
pub open spec fn opened(cache: CacheView, key: Seq<char>) -> Result<(Sri, Seq<u8>), Error> {
    match latest(cache.index, key) {
        Some(entry) => opened_hash(cache, entry.integrity),
        None => Err(Error::NotFound),
    }
}

/// What reading `key` answers: the bytes that were written under it, or
/// `NotFound` where the key does not resolve or its blob is gone, or
/// `IntegrityMismatch` where the blob no longer hashes to its address.
pub open spec fn read_key(cache: CacheView, key: Seq<char>) -> Result<Seq<u8>, Error> {
    match latest(cache.index, key) {
        Some(entry) => read_outcome(cache.content, entry.integrity),
        None => Err(Error::NotFound),
    }
}

/// What copying `key` answers: the number of bytes copied, or the error
/// that reading `key` gives.
pub open spec fn copied_key(cache: CacheView, key: Seq<char>) -> Result<u64, Error> {
    match latest(cache.index, key) {
        Some(entry) => copy_outcome(cache.content, entry.integrity),
        None => Err(Error::NotFound),
    }
}

/// What a copy leaves at its destination, which held `before`: the bytes of
/// the blob under `sri` where there is one, else `before`.
pub open spec fn destination(cache: CacheView, sri: Sri, before: Seq<u8>) -> Seq<u8> {
    if cache.content.dom().contains(sri) {
        cache.content[sri]
    } else {
        before
    }
}

/// What a copy of `key` leaves at its destination, which held `before`.
pub open spec fn destination_key(cache: CacheView, key: Seq<char>, before: Seq<u8>) -> Seq<u8> {
    match latest(cache.index, key) {
        Some(entry) => destination(cache, entry.integrity, before),
        None => before,
    }
}

/// Whether `get` is a fresh reader on what `on` names: `Ok` with the address
/// and the bytes, or the error.
pub open spec fn opens(get: Result<Get, Error>, on: Result<(Sri, Seq<u8>), Error>) -> bool {
    match get {
        Ok(get) => {
            &&& on == Ok::<(Sri, Seq<u8>), Error>((get.expected(), get.source()))
            &&& get.wf()
            &&& get.position() == 0
        },
        Err(e) => on == Err::<(Sri, Seq<u8>), Error>(e),
    }
}

/// Opens the content that `key` resolves to, for reading in chunks.
/// `NotFound` where the key does not resolve; the content store is then not
/// looked at. `NotFound` also where the key resolves and the blob is gone.
pub fn open(cache: &Cache, key: &str) -> (get: Result<Get, Error>)
    ensures
        opens(get, opened(cache@, key@)),
{
    if let Some(entry) = cache.index.find(key) {
        let reader = cache.content.open(entry.integrity)?;
        Ok(Get { reader })
    } else {
        Err(Error::NotFound)
    }
}

/// Opens the blob under `sri` for reading in chunks, without looking at the
/// index. `NotFound` where there is no blob.
pub fn open_hash(cache: &Cache, sri: Integrity) -> (get: Result<Get, Error>)
    ensures
        opens(get, opened_hash(cache@, sri@)),
{
    Ok(Get { reader: cache.content.open(sri)? })
}

/// Reads the content that `key` resolves to, whole, and hashes it.
/// `NotFound` where the key does not resolve or its blob is gone;
/// `IntegrityMismatch` where the blob does not hash to its address.
pub fn read(cache: &Cache, key: &str) -> (data: Result<Vec<u8>, Error>)
    ensures
        match data {
            Ok(data) => read_key(cache@, key@) == Ok::<Seq<u8>, Error>(data@),
            Err(e) => read_key(cache@, key@) == Err::<Seq<u8>, Error>(e),
        },
{
    if let Some(entry) = cache.index.find(key) {
        read_hash(cache, &entry.integrity)
    } else {
        Err(Error::NotFound)
    }
}

/// Reads the blob under `sri`, whole, and hashes it. `NotFound` where there
/// is no blob; `IntegrityMismatch` where it does not hash to `sri`.
pub fn read_hash(cache: &Cache, sri: &Integrity) -> (data: Result<Vec<u8>, Error>)
    ensures
        match data {
            Ok(data) => read_outcome(cache@.content, sri@) == Ok::<Seq<u8>, Error>(data@),
            Err(e) => read_outcome(cache@.content, sri@) == Err::<Seq<u8>, Error>(e),
        },
{
    cache.content.read(sri)
}

/// Copies the content that `key` resolves to into `to`, whose former bytes
/// are lost, and hashes it: the number of bytes copied. Where the blob does
/// not hash to its address, `IntegrityMismatch`, and `to` holds the bytes
/// that failed. `NotFound` where the key does not resolve or its blob is
/// gone: `to` is then left as it was.
pub fn copy(cache: &Cache, key: &str, to: &mut Vec<u8>) -> (copied: Result<u64, Error>)
    ensures
        copied == copied_key(cache@, key@),
        final(to)@ == destination_key(cache@, key@, old(to)@),
{
    if let Some(entry) = cache.index.find(key) {
        copy_hash(cache, &entry.integrity, to)
    } else {
        Err(Error::NotFound)
    }
}

/// Copies the blob under `sri` into `to`, whose former bytes are lost, and
/// hashes it: the number of bytes copied. Where the blob does not hash to
/// `sri`, `IntegrityMismatch`, and `to` holds the bytes that failed.
/// `NotFound` where there is no blob: `to` is then left as it was.
pub fn copy_hash(cache: &Cache, sri: &Integrity, to: &mut Vec<u8>) -> (copied: Result<u64, Error>)
    ensures
        copied == copy_outcome(cache@.content, sri@),
        final(to)@ == destination(cache@, sri@, old(to)@),
{
    cache.content.copy(sri, to)
}

/// The entry that `key` resolves to, if there is one. Only the index is
/// looked at. This never fails: a key without an entry gives `Ok(None)`.
pub fn info(cache: &Cache, key: &str) -> (entry: Result<Option<Entry>, Error>)
    ensures
        match entry {
            Ok(Some(entry)) => latest(cache@.index, key@) == Some(entry@),
            Ok(None) => latest(cache@.index, key@) is None,
            Err(_) => false,
        },
{
    Ok(cache.index.find(key))
}

/// Whether a blob is kept under `sri`. The bytes are not looked at.
pub fn hash_exists(cache: &Cache, sri: &Integrity) -> (present: bool)
    ensures
        present == cache@.content.dom().contains(sri@),
{
    cache.content.has(sri)
}

} // verus!
