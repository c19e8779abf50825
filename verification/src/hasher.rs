//! Digests computed while the bytes flow through.
//!
//! The hash functions themselves are those of the `ssri` crate. What they
//! compute is not restated here: it goes by the name [`digest_of`].
use vstd::prelude::*;
use crate::algorithm::Algorithm;
use crate::errors::Error;
use crate::hex;
use crate::integrity::{Integrity, Sri};

verus! {

/// The digest that `algorithm` gives for `data`.
pub uninterp spec fn digest_of(algorithm: Algorithm, data: Seq<u8>) -> Seq<u8>;

/// The bytes that have been fed to `state` so far, in order.
pub uninterp spec fn fed(state: ssri::IntegrityOpts) -> Seq<u8>;

/// The algorithm that `state` computes, where it was set up for exactly one.
pub uninterp spec fn bound_to(state: ssri::IntegrityOpts) -> Option<Algorithm>;

/// `ssri::IntegrityOpts`: a running hash computation.
#[verifier::external_type_specification]
#[verifier::external_body]
pub struct ExIntegrityOpts(ssri::IntegrityOpts);

/// `ssri::IntegrityOpts::new` followed by `algorithm`: a computation set up
/// for the one algorithm given, to which nothing has been fed yet.
#[verifier::external_body]
fn start(algorithm: Algorithm) -> (state: ssri::IntegrityOpts)
    ensures
        bound_to(state) == Some(algorithm),
        fed(state) == Seq::<u8>::empty(),
{
    ssri::IntegrityOpts::new().algorithm(
        match algorithm {
            Algorithm::Sha512 => ssri::Algorithm::Sha512,
            Algorithm::Sha384 => ssri::Algorithm::Sha384,
            Algorithm::Sha256 => ssri::Algorithm::Sha256,
            Algorithm::Sha1 => ssri::Algorithm::Sha1,
            Algorithm::Xxh3 => ssri::Algorithm::Xxh3,
        },
    )
}

/// `ssri::IntegrityOpts::input`: feeds `chunk` to the computation, after
/// what was fed before. The algorithm stays. The call does not panic.
#[verifier::external_body]
fn feed(state: &mut ssri::IntegrityOpts, chunk: &[u8])
    ensures
        bound_to(*final(state)) == bound_to(*old(state)),
        fed(*final(state)) == fed(*old(state)) + chunk@,
    no_unwind
{
    state.input(chunk);
}

/// `ssri::IntegrityOpts::result` followed by `ssri::Integrity::to_hex`: the
/// digest of all that was fed, under the algorithm the computation was set
/// up for, written as lowercase hexadecimal text.
#[verifier::external_body]
fn finish(state: ssri::IntegrityOpts) -> (text: Vec<u8>)
    requires
        bound_to(state) is Some,
    ensures
        text@ == hex::encoded(digest_of(bound_to(state)->0, fed(state))),
{
    state.result().to_hex().1.into_bytes()
}

/// Computes the digest of a stream of bytes, chunk by chunk.
pub struct Hasher {
    algorithm: Algorithm,
    state: ssri::IntegrityOpts,
}

impl Hasher {
    #[verifier::type_invariant]
    spec fn well_formed(self) -> bool {
        bound_to(self.state) == Some(self.algorithm)
    }

    /// The algorithm the digest is computed with.
    pub closed spec fn algorithm(&self) -> Algorithm {
        self.algorithm
    }

    /// The bytes fed so far.
    pub closed spec fn consumed(&self) -> Seq<u8> {
        fed(self.state)
    }

    /// A hasher for `algorithm` that has consumed nothing.
    pub fn new(algorithm: Algorithm) -> (hasher: Hasher)
        ensures
            hasher.algorithm() == algorithm,
            hasher.consumed() == Seq::<u8>::empty(),
    {
        Hasher { algorithm, state: start(algorithm) }
    }

    /// Consumes `chunk`.
    pub fn input(&mut self, chunk: &[u8])
        ensures
            final(self).algorithm() == old(self).algorithm(),
            final(self).consumed() == old(self).consumed() + chunk@,
        no_unwind
    {
        proof {
            use_type_invariant(&*self);
        }
        feed(&mut self.state, chunk);
    }

    /// The integrity value of all that was consumed.
    pub fn result(self) -> (sri: Integrity)
        ensures
            sri@ == (Sri {
                algorithm: self.algorithm(),
                digest: digest_of(self.algorithm(), self.consumed()),
            }),
    {
        proof {
            use_type_invariant(&self);
        }
        let algorithm = self.algorithm;
        let ghost digest = digest_of(algorithm, fed(self.state));
        let text = finish(self.state);
        proof {
            hex::lemma_decoded_encoded(digest);
        }
        match hex::decode(text.as_slice()) {
            Some(digest) => Integrity { algorithm, digest },
            None => vstd::pervasive::unreached(),
        }
    }
}

/// The integrity value of `data` under `algorithm`.
pub fn compute(algorithm: Algorithm, data: &[u8]) -> (sri: Integrity)
    ensures
        sri@ == (Sri { algorithm, digest: digest_of(algorithm, data@) }),
{
    let mut hasher = Hasher::new(algorithm);
    hasher.input(data);
    assert(Seq::<u8>::empty() + data@ =~= data@);
    hasher.result()
}

/// Whether `data` hashes to `sri` under the algorithm of `sri`.
pub open spec fn hashes_to(sri: Sri, data: Seq<u8>) -> bool {
    digest_of(sri.algorithm, data) == sri.digest
}

/// What checking `data` against `sri` answers: the algorithm that was
/// verified, or `IntegrityMismatch`.
pub open spec fn checked(sri: Sri, data: Seq<u8>) -> Result<Algorithm, Error> {
    if hashes_to(sri, data) {
        Ok(sri.algorithm)
    } else {
        Err(Error::IntegrityMismatch)
    }
}

/// Checks a stream of bytes, chunk by chunk, against the digest it is
/// expected to have.
pub struct Matcher {
    expected: Integrity,
    hasher: Hasher,
}

impl Matcher {
    #[verifier::type_invariant]
    spec fn well_formed(self) -> bool {
        self.hasher.algorithm() == self.expected.algorithm
    }

    /// The digest the bytes are held against.
    pub closed spec fn expected(&self) -> Sri {
        self.expected@
    }

    /// The bytes fed so far.
    pub closed spec fn consumed(&self) -> Seq<u8> {
        self.hasher.consumed()
    }

    /// A matcher against `expected` that has consumed nothing.
    pub fn new(expected: Integrity) -> (matcher: Matcher)
        ensures
            matcher.expected() == expected@,
            matcher.consumed() == Seq::<u8>::empty(),
    {
        let hasher = Hasher::new(expected.algorithm);
        Matcher { expected, hasher }
    }

    /// Consumes `chunk`.
    pub fn input(&mut self, chunk: &[u8])
        ensures
            final(self).expected() == old(self).expected(),
            final(self).consumed() == old(self).consumed() + chunk@,
    {
        proof {
            use_type_invariant(&*self);
        }
        self.hasher.input(chunk);
    }

    /// Whether all that was consumed hashes to the expected digest: the
    /// algorithm that was verified, or `IntegrityMismatch`.
    pub fn result(self) -> (outcome: Result<Algorithm, Error>)
        ensures
            outcome == checked(self.expected(), self.consumed()),
    {
        proof {
            use_type_invariant(&self);
        }
        let actual = self.hasher.result();
        self.expected.confirm(&actual)
    }
}

/// Checks `data` against `sri`: the algorithm that was verified where `data`
/// hashes to `sri`, `IntegrityMismatch` where it does not.
pub fn check(sri: &Integrity, data: &[u8]) -> (outcome: Result<Algorithm, Error>)
    ensures
        outcome == checked(sri@, data@),
{
    let actual = compute(sri.algorithm, data);
    sri.confirm(&actual)
}

/// Whether `data` hashes to `sri`.
pub fn verify(sri: &Integrity, data: &[u8]) -> (ok: bool)
    ensures
        ok == hashes_to(sri@, data@),
{
    check(sri, data).is_ok()
}

} // verus!
