//! Integrity values: a hash algorithm and the digest it gave for some bytes.
use vstd::prelude::*;
use crate::algorithm::Algorithm;
use crate::bytes::{copy_bytes, same_bytes};
use crate::errors::Error;

verus! {

/// What an [`Integrity`] stands for: the algorithm and the digest bytes.
pub struct Sri {
    pub algorithm: Algorithm,
    pub digest: Seq<u8>,
}

/// A content digest, tagged with the algorithm that made it. Two values are
/// the same when both the algorithm and the digest bytes agree.
#[derive(Debug, PartialEq, Eq, Hash)]
pub struct Integrity {
    pub algorithm: Algorithm,
    pub digest: Vec<u8>,
}

impl View for Integrity {
    type V = Sri;

    open spec fn view(&self) -> Sri {
        Sri { algorithm: self.algorithm, digest: self.digest@ }
    }
}

impl Clone for Integrity {
    fn clone(&self) -> (copy: Integrity)
        ensures
            copy@ == self@,
    {
        Integrity { algorithm: self.algorithm, digest: copy_bytes(self.digest.as_slice()) }
    }
}

impl Integrity {
    /// Whether `self` and `other` are the same algorithm and digest.
    pub fn same(&self, other: &Integrity) -> (same: bool)
        ensures
            same == (self@ == other@),
    {
        self.algorithm == other.algorithm && same_bytes(
            self.digest.as_slice(),
            other.digest.as_slice(),
        )
    }

    /// Holds the digest `actual`, computed from some bytes, against the
    /// digest `self` that the bytes are expected to have: the algorithm that
    /// was verified where they agree, `IntegrityMismatch` where they do not.
    pub fn confirm(&self, actual: &Integrity) -> (outcome: Result<Algorithm, Error>)
        ensures
            outcome == confirmed(self@, actual@),
    {
        if self.same(actual) {
            Ok(self.algorithm)
        } else {
            Err(Error::IntegrityMismatch)
        }
    }
}

/// What [`Integrity::confirm`] answers.
pub open spec fn confirmed(expected: Sri, actual: Sri) -> Result<Algorithm, Error> {
    if expected == actual {
        Ok(expected.algorithm)
    } else {
        Err(Error::IntegrityMismatch)
    }
}

/// Of two integrity values for the same content, the one with the stronger
/// algorithm; `a` where neither is stronger.
pub fn strongest(a: Integrity, b: Integrity) -> (pick: Integrity)
    ensures
        pick == if b.algorithm.spec_rank() < a.algorithm.spec_rank() {
            b
        } else {
            a
        },
{
    if b.algorithm.stronger_than(a.algorithm) {
        b
    } else {
        a
    }
}

} // verus!
