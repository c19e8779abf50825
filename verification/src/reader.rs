//! Reading a blob in chunks, hashing what is read.
use vstd::prelude::*;
use vstd::slice::slice_subrange;
use crate::algorithm::Algorithm;
use crate::bytes::append_bytes;
use crate::errors::Error;
use crate::hasher::{checked, hashes_to, Matcher};
use crate::integrity::{Integrity, Sri};

verus! {

/// A blob opened for reading. Each chunk that is handed out is hashed on
/// the way; [`Reader::check`] then only finishes the hash and compares.
pub struct Reader {
    data: Vec<u8>,
    position: usize,
    matcher: Matcher,
}

/// How many bytes are read at a time when a blob is read to its end.
pub const CHUNK: usize = 4096;

/// How many bytes a read hands out: as many as the buffer takes, or as are
/// left.
pub open spec fn chunk_len(room: nat, left: nat) -> nat {
    if room <= left {
        room
    } else {
        left
    }
}

impl Reader {
    /// The reader's invariant: it stands inside the blob, and has hashed
    /// exactly the bytes before its position.
    pub closed spec fn wf(&self) -> bool {
        &&& self.position <= self.data.len()
        &&& self.matcher.consumed() == self.data@.subrange(0, self.position as int)
    }

    /// The bytes of the blob.
    pub closed spec fn source(&self) -> Seq<u8> {
        self.data@
    }

    /// How many bytes have been read.
    pub closed spec fn position(&self) -> nat {
        self.position as nat
    }

    /// The digest the bytes are held against.
    pub closed spec fn expected(&self) -> Sri {
        self.matcher.expected()
    }

    /// The bytes read so far.
    pub open spec fn consumed(&self) -> Seq<u8> {
        self.source().subrange(0, self.position() as int)
    }

    /// A reader at the start of `data`, which is held against `expected`.
    pub fn new(data: Vec<u8>, expected: Integrity) -> (reader: Reader)
        ensures
            reader.wf(),
            reader.source() == data@,
            reader.position() == 0,
            reader.expected() == expected@,
    {
        let matcher = Matcher::new(expected);
        assert(data@.subrange(0, 0) =~= Seq::<u8>::empty());
        Reader { data, position: 0, matcher }
    }

    /// Reads the next bytes into the front of `buf`: as many as `buf` takes,
    /// or as are left. Gives their number; 0 means the end of the blob, or a
    /// buffer without room. What `buf` held behind them stays.
    pub fn read(&mut self, buf: &mut Vec<u8>) -> (n: usize)
        requires
            old(self).wf(),
        ensures
            final(self).wf(),
            final(self).source() == old(self).source(),
            final(self).expected() == old(self).expected(),
            n == chunk_len(
                old(buf)@.len(),
                (old(self).source().len() - old(self).position()) as nat,
            ),
            final(self).position() == old(self).position() + n,
            final(self).position() <= final(self).source().len(),
            final(buf)@ == old(self).source().subrange(
                old(self).position() as int,
                old(self).position() + n,
            ) + old(buf)@.skip(n as int),
    {
        let start: usize = self.position;
        let left: usize = self.data.len() - start;
        let n: usize = if buf.len() <= left {
            buf.len()
        } else {
            left
        };
        let mut i: usize = 0;
        while i < n
            invariant
                i <= n,
                start + n <= self.data.len(),
                n <= buf.len(),
                buf@.len() == old(buf)@.len(),
                self.data@ == old(self).data@,
                forall|j: int| 0 <= j < i ==> #[trigger] buf@[j] == self.data@[start + j],
                forall|j: int| i <= j < buf@.len() ==> #[trigger] buf@[j] == old(buf)@[j],
            decreases n - i,
        {
            buf.set(i, self.data[start + i]);
            i = i + 1;
        }
        self.matcher.input(slice_subrange(self.data.as_slice(), start, start + n));
        self.position = start + n;
        assert(self.data@.subrange(0, start as int) + self.data@.subrange(
            start as int,
            start + n,
        ) =~= self.data@.subrange(0, start + n));
        assert(buf@ =~= self.data@.subrange(start as int, start + n) + old(buf)@.skip(n as int));
        n
    }

    /// Reads on to the end of the blob, chunk by chunk, and appends what is
    /// read to `out`.
    pub fn drain(&mut self, out: &mut Vec<u8>)
        requires
            old(self).wf(),
        ensures
            final(self).wf(),
            final(self).source() == old(self).source(),
            final(self).expected() == old(self).expected(),
            final(self).position() == final(self).source().len(),
            final(out)@ == old(out)@ + old(self).source().skip(old(self).position() as int),
    {
        let mut buf: Vec<u8> = vec![0u8; CHUNK];
        let ghost start = self.position() as int;
        assert(self.source().subrange(start, start) =~= Seq::<u8>::empty());
        loop
            invariant
                self.wf(),
                buf@.len() == CHUNK,
                self.source() == old(self).source(),
                self.expected() == old(self).expected(),
                start == old(self).position(),
                start <= self.position() <= self.source().len(),
                out@ == old(out)@ + self.source().subrange(start, self.position() as int),
            ensures
                self.wf(),
                self.source() == old(self).source(),
                self.expected() == old(self).expected(),
                self.position() == self.source().len(),
                out@ == old(out)@ + self.source().subrange(start, self.position() as int),
            decreases self.source().len() - self.position(),
        {
            let ghost before = self.position() as int;
            let n = self.read(&mut buf);
            if n == 0 {
                break ;
            }
            append_bytes(out, slice_subrange(buf.as_slice(), 0, n));
            assert(buf@.subrange(0, n as int) =~= self.source().subrange(before, before + n));
            assert(self.source().subrange(start, before) + self.source().subrange(
                before,
                before + n,
            ) =~= self.source().subrange(start, before + n));
        }
        assert(self.source().subrange(start, self.source().len() as int) =~= self.source().skip(
            start,
        ));
    }

    /// Reads the blob to its end and checks it: what was left to read,
    /// where the whole blob hashes to the expected digest, else
    /// `IntegrityMismatch`.
    pub fn read_to_end(self) -> (rest: Result<Vec<u8>, Error>)
        requires
            self.wf(),
        ensures
            match rest {
                Ok(rest) => {
                    &&& hashes_to(self.expected(), self.source())
                    &&& rest@ == self.source().skip(self.position() as int)
                },
                Err(e) => !hashes_to(self.expected(), self.source()) && e
                    == Error::IntegrityMismatch,
            },
    {
        let mut reader = self;
        let mut rest: Vec<u8> = Vec::new();
        reader.drain(&mut rest);
        assert(reader.source().subrange(0, reader.source().len() as int) =~= reader.source());
        match reader.check() {
            Ok(_) => Ok(rest),
            Err(e) => Err(e),
        }
    }

    /// Finishes the hash of the bytes read so far and compares it with the
    /// expected digest: the algorithm that was verified, or
    /// `IntegrityMismatch`. Once the blob has been read to its end, this
    /// says whether the blob hashes to the digest it was opened under.
    pub fn check(self) -> (outcome: Result<Algorithm, Error>)
        requires
            self.wf(),
        ensures
            outcome == checked(self.expected(), self.consumed()),
    {
        self.matcher.result()
    }
}

} // verus!
