//! The hash algorithms a digest can be made with.
use vstd::prelude::*;

verus! {

/// A hash algorithm. The variants stand in order of strength, the
/// strongest first.
#[derive(Clone, Copy, Debug, PartialEq, Eq, Structural, Hash)]
pub enum Algorithm {
    Sha512,
    Sha384,
    Sha256,
    Sha1,
    /// 128-bit xxh3: fast, and not cryptographic.
    Xxh3,
}

impl Default for Algorithm {
    /// The algorithm that content is hashed with where none is asked for:
    /// SHA-256.
    fn default() -> (algorithm: Algorithm)
        ensures
            algorithm == Algorithm::Sha256,
    {
        Algorithm::Sha256
    }
}

impl Algorithm {
    /// The place of the algorithm in the order of strength: 0 is the
    /// strongest.
    pub open spec fn spec_rank(self) -> nat {
        match self {
            Algorithm::Sha512 => 0,
            Algorithm::Sha384 => 1,
            Algorithm::Sha256 => 2,
            Algorithm::Sha1 => 3,
            Algorithm::Xxh3 => 4,
        }
    }

    /// The algorithm whose place in the order of strength is `rank`.
    pub open spec fn spec_from_rank(rank: u8) -> Option<Algorithm> {
        if rank == 0 {
            Some(Algorithm::Sha512)
        } else if rank == 1 {
            Some(Algorithm::Sha384)
        } else if rank == 2 {
            Some(Algorithm::Sha256)
        } else if rank == 3 {
            Some(Algorithm::Sha1)
        } else if rank == 4 {
            Some(Algorithm::Xxh3)
        } else {
            None
        }
    }

    /// The name the algorithm has in the text form of an integrity value.
    pub open spec fn spec_name(self) -> Seq<char> {
        match self {
            Algorithm::Sha512 => seq!['s', 'h', 'a', '5', '1', '2'],
            Algorithm::Sha384 => seq!['s', 'h', 'a', '3', '8', '4'],
            Algorithm::Sha256 => seq!['s', 'h', 'a', '2', '5', '6'],
            Algorithm::Sha1 => seq!['s', 'h', 'a', '1'],
            Algorithm::Xxh3 => seq!['x', 'x', 'h', '3'],
        }
    }

    /// The place of the algorithm in the order of strength: 0 is the
    /// strongest.
    pub fn rank(self) -> (rank: u8)
        ensures
            rank == self.spec_rank(),
    {
        match self {
            Algorithm::Sha512 => 0,
            Algorithm::Sha384 => 1,
            Algorithm::Sha256 => 2,
            Algorithm::Sha1 => 3,
            Algorithm::Xxh3 => 4,
        }
    }

    /// The algorithm whose place in the order of strength is `rank`, if
    /// there is one.
    pub fn from_rank(rank: u8) -> (algorithm: Option<Algorithm>)
        ensures
            algorithm == Algorithm::spec_from_rank(rank),
            algorithm matches Some(a) ==> a.spec_rank() == rank,
    {
        match rank {
            0 => Some(Algorithm::Sha512),
            1 => Some(Algorithm::Sha384),
            2 => Some(Algorithm::Sha256),
            3 => Some(Algorithm::Sha1),
            4 => Some(Algorithm::Xxh3),
            _ => None,
        }
    }

    /// Whether `self` is strictly stronger than `other`.
    pub fn stronger_than(self, other: Algorithm) -> (stronger: bool)
        ensures
            stronger == (self.spec_rank() < other.spec_rank()),
    {
        self.rank() < other.rank()
    }

    /// The name the algorithm has in the text form of an integrity value.
    pub fn name(self) -> (text: &'static str)
        ensures
            text@ == self.spec_name(),
    {
        match self {
            Algorithm::Sha512 => {
                proof {
                    reveal_strlit("sha512");
                }
                assert("sha512"@ =~= Algorithm::Sha512.spec_name());
                "sha512"
            },
            Algorithm::Sha384 => {
                proof {
                    reveal_strlit("sha384");
                }
                assert("sha384"@ =~= Algorithm::Sha384.spec_name());
                "sha384"
            },
            Algorithm::Sha256 => {
                proof {
                    reveal_strlit("sha256");
                }
                assert("sha256"@ =~= Algorithm::Sha256.spec_name());
                "sha256"
            },
            Algorithm::Sha1 => {
                proof {
                    reveal_strlit("sha1");
                }
                assert("sha1"@ =~= Algorithm::Sha1.spec_name());
                "sha1"
            },
            Algorithm::Xxh3 => {
                proof {
                    reveal_strlit("xxh3");
                }
                assert("xxh3"@ =~= Algorithm::Xxh3.spec_name());
                "xxh3"
            },
        }
    }
}

/// Two algorithms with the same name are the same algorithm.
pub proof fn lemma_name_injective(a: Algorithm, b: Algorithm)
    requires
        a.spec_name() == b.spec_name(),
    ensures
        a == b,
{
    let n = a.spec_name();
    let m = b.spec_name();
    assert(n.len() == m.len());
    assert(n[0] == m[0]);
    assert(n[3] == m[3]);
}

} // verus!
