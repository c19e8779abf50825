//! Writing a blob in chunks, hashing what is written.
use vstd::prelude::*;
use crate::algorithm::Algorithm;
use crate::bytes::append_bytes;
use crate::content::{address_of, written, ContentStore};
use crate::hasher::Hasher;
use crate::integrity::Integrity;

verus! {

/// A blob on its way into the store. The bytes gather outside the store
/// and are hashed as they come; only [`Writer::commit`] makes the blob
/// show under its digest. A writer that is dropped leaves the store as it
/// was.
pub struct Writer {
    hasher: Hasher,
    buffer: Vec<u8>,
}

impl Writer {
    /// The writer's invariant: it has hashed exactly the bytes it holds.
    pub closed spec fn wf(&self) -> bool {
        self.hasher.consumed() == self.buffer@
    }

    /// The algorithm the blob is hashed with.
    pub closed spec fn algorithm(&self) -> Algorithm {
        self.hasher.algorithm()
    }

    /// The bytes written so far.
    pub closed spec fn pending(&self) -> Seq<u8> {
        self.buffer@
    }

    /// A writer for `algorithm` to which nothing has been written.
    pub fn new(algorithm: Algorithm) -> (writer: Writer)
        ensures
            writer.wf(),
            writer.algorithm() == algorithm,
            writer.pending() == Seq::<u8>::empty(),
    {
        Writer { hasher: Hasher::new(algorithm), buffer: Vec::new() }
    }

    /// The number of bytes written so far.
    pub fn len(&self) -> (n: usize)
        ensures
            n == self.pending().len(),
    {
        self.buffer.len()
    }

    /// Takes all of `chunk`, after what was written before, and gives its
    /// length.
    pub fn write(&mut self, chunk: &[u8]) -> (n: usize)
        requires
            old(self).wf(),
        ensures
            final(self).wf(),
            final(self).algorithm() == old(self).algorithm(),
            final(self).pending() == old(self).pending() + chunk@,
            n == chunk@.len(),
    {
        self.hasher.input(chunk);
        append_bytes(&mut self.buffer, chunk);
        chunk.len()
    }

    /// Finishes the hash and commits the bytes to `store` under their
    /// digest, unless a blob is kept there already. Gives the digest back.
    pub fn commit(self, store: &mut ContentStore) -> (sri: Integrity)
        requires
            self.wf(),
        ensures
            sri@ == address_of(self.algorithm(), self.pending()),
            final(store)@ == written(old(store)@, self.algorithm(), self.pending()),
    {
        let sri = self.hasher.result();
        store.commit(sri.clone(), self.buffer);
        sri
    }
}

} // verus!
