//! The text form of an integrity value: the algorithm's name, a hyphen, and
//! the digest in standard base64 with padding.
//!
//! The base64 conversion is that of the `base64` crate. What it computes is
//! not restated here: it goes by the names [`base64_text`] and
//! [`base64_bytes`].
use vstd::prelude::*;
use vstd::string::*;
use crate::algorithm::Algorithm;
use crate::bytes::same_text;
use crate::errors::Error;
use crate::integrity::{Integrity, Sri};

verus! {

/// The text that standard base64 with padding gives for `bytes`.
pub uninterp spec fn base64_text(bytes: Seq<u8>) -> Seq<char>;

/// The bytes that standard base64 with padding reads from `text`; `None`
/// where `text` is not canonical base64 text.
pub uninterp spec fn base64_bytes(text: Seq<char>) -> Option<Seq<u8>>;

/// `base64::Engine::encode` of the engine `STANDARD`: the base64 text of
/// `bytes`. Decoding that text gives `bytes` back. The crate panics where the
/// length of the text does not fit in `usize`.
#[verifier::external_body]
fn to_base64(bytes: &[u8]) -> (text: String)
    requires
        bytes@.len() / 3 * 4 + 4 <= usize::MAX,
    ensures
        text@ == base64_text(bytes@),
        base64_bytes(text@) == Some(bytes@),
{
    base64::Engine::encode(&base64::engine::general_purpose::STANDARD, bytes)
}

/// `base64::DecodeError`: why a text is not canonical base64 text.
#[verifier::external_type_specification]
#[verifier::external_body]
pub struct ExDecodeError(base64::DecodeError);

/// `base64::Engine::decode` of the engine `STANDARD`: the bytes that `text`
/// is the base64 text of, or the error that the crate reports where `text`
/// is not canonical base64 text.
#[verifier::external_body]
fn from_base64(text: &str) -> (bytes: Result<Vec<u8>, base64::DecodeError>)
    ensures
        match bytes {
            Ok(b) => base64_bytes(text@) == Some(b@),
            Err(_) => base64_bytes(text@) is None,
        },
{
    base64::Engine::decode(&base64::engine::general_purpose::STANDARD, text)
}

/// What the text form of a digest made with `algorithm` begins with.
pub open spec fn tag(algorithm: Algorithm) -> Seq<char> {
    algorithm.spec_name() + seq!['-']
}

/// Whether `text` begins with the tag of `algorithm`.
pub open spec fn tagged(text: Seq<char>, algorithm: Algorithm) -> bool {
    tag(algorithm).len() <= text.len() && text.subrange(0, tag(algorithm).len() as int) == tag(
        algorithm,
    )
}

/// The algorithm whose tag `text` begins with, and what follows the tag.
pub open spec fn split(text: Seq<char>) -> Option<(Algorithm, Seq<char>)> {
    if tagged(text, Algorithm::Sha512) {
        Some((Algorithm::Sha512, text.skip(7)))
    } else if tagged(text, Algorithm::Sha384) {
        Some((Algorithm::Sha384, text.skip(7)))
    } else if tagged(text, Algorithm::Sha256) {
        Some((Algorithm::Sha256, text.skip(7)))
    } else if tagged(text, Algorithm::Sha1) {
        Some((Algorithm::Sha1, text.skip(5)))
    } else if tagged(text, Algorithm::Xxh3) {
        Some((Algorithm::Xxh3, text.skip(5)))
    } else {
        None
    }
}

/// The tag of `algorithm` followed by `digest_text`.
pub open spec fn joined(algorithm: Algorithm, digest_text: Seq<char>) -> Seq<char> {
    tag(algorithm) + digest_text
}

/// The text form of `sri`.
pub open spec fn text_of(sri: Sri) -> Seq<char> {
    joined(sri.algorithm, base64_text(sri.digest))
}

/// The integrity value that `text` is the text form of, or `ParseError`.
pub open spec fn parsed(text: Seq<char>) -> Result<Sri, Error> {
    match split(text) {
        Some((algorithm, rest)) => match base64_bytes(rest) {
            Some(digest) => Ok(Sri { algorithm, digest }),
            None => Err(Error::ParseError),
        },
        None => Err(Error::ParseError),
    }
}

/// A text that was joined from a tag and a digest text splits into the two.
pub proof fn lemma_split_joined(algorithm: Algorithm, digest_text: Seq<char>)
    ensures
        split(joined(algorithm, digest_text)) == Some((algorithm, digest_text)),
{
    let text = joined(algorithm, digest_text);
    let n = tag(algorithm).len() as int;
    assert(text.subrange(0, n) =~= tag(algorithm));
    assert(text.skip(n) =~= digest_text);
    assert(text[0] == tag(algorithm)[0]);
    assert(text[3] == tag(algorithm)[3]);
    assert forall|other: Algorithm| other != algorithm implies !tagged(text, other) by {
        if tagged(text, other) {
            let m = tag(other).len() as int;
            assert(text.subrange(0, m)[0] == text[0]);
            assert(text.subrange(0, m)[3] == text[3]);
        }
    }
}

/// Whether `text` begins with the tag of `algorithm`.
fn has_tag(text: &str, length: usize, algorithm: Algorithm) -> (yes: bool)
    requires
        length == text@.len(),
    ensures
        yes == tagged(text@, algorithm),
{
    let name = algorithm.name();
    let n: usize = name.unicode_len();
    if length <= n {
        return false;
    }
    let head = text.substring_char(0, n);
    let same = same_text(head, name);
    let hyphen = text.get_char(n) == '-';
    proof {
        let t = tag(algorithm);
        let p = text@.subrange(0, t.len() as int);
        if same && hyphen {
            assert(p =~= t);
        } else if !same {
            assert(p.subrange(0, n as int) =~= text@.subrange(0, n as int));
            assert(t.subrange(0, n as int) =~= algorithm.spec_name());
        } else {
            assert(p[n as int] == text@[n as int]);
            assert(t[n as int] == '-');
        }
    }
    same && hyphen
}

/// Splits `text` into the algorithm whose tag it begins with and what
/// follows the tag; `None` where it begins with no algorithm's tag.
pub fn split_tag(text: &str) -> (parts: Option<(Algorithm, &str)>)
    ensures
        match parts {
            Some((algorithm, rest)) => split(text@) == Some((algorithm, rest@)),
            None => split(text@) is None,
        },
{
    let length: usize = text.unicode_len();
    if has_tag(text, length, Algorithm::Sha512) {
        Some((Algorithm::Sha512, text.substring_char(7, length)))
    } else if has_tag(text, length, Algorithm::Sha384) {
        Some((Algorithm::Sha384, text.substring_char(7, length)))
    } else if has_tag(text, length, Algorithm::Sha256) {
        Some((Algorithm::Sha256, text.substring_char(7, length)))
    } else if has_tag(text, length, Algorithm::Sha1) {
        Some((Algorithm::Sha1, text.substring_char(5, length)))
    } else if has_tag(text, length, Algorithm::Xxh3) {
        Some((Algorithm::Xxh3, text.substring_char(5, length)))
    } else {
        None
    }
}

/// Writes the tag of `algorithm` followed by `digest_text`.
pub fn join(algorithm: Algorithm, digest_text: &str) -> (text: String)
    ensures
        text@ == joined(algorithm, digest_text@),
{
    let mut text = String::from_str(algorithm.name());
    proof {
        reveal_strlit("-");
    }
    text.append("-");
    text.append(digest_text);
    assert(text@ =~= joined(algorithm, digest_text@)) by {
        assert("-"@ =~= seq!['-']);
    }
    text
}

impl Integrity {
    /// The text form of the value. Reading the text gives the value back.
    /// The length of the text must fit in `usize`.
    pub fn to_string(&self) -> (text: String)
        requires
            self.digest@.len() / 3 * 4 + 4 <= usize::MAX,
        ensures
            text@ == text_of(self@),
            parsed(text@) == Ok::<Sri, Error>(self@),
    {
        let digest_text = to_base64(self.digest.as_slice());
        proof {
            lemma_split_joined(self.algorithm, digest_text@);
        }
        join(self.algorithm, digest_text.as_str())
    }

    /// Reads the text form of an integrity value. `ParseError` where `text`
    /// does not begin with the name of an algorithm and a hyphen, or where
    /// what follows is not canonical base64 text.
    pub fn parse(text: &str) -> (sri: Result<Integrity, Error>)
        ensures
            match sri {
                Ok(sri) => parsed(text@) == Ok::<Sri, Error>(sri@),
                Err(e) => parsed(text@) == Err::<Sri, Error>(e),
            },
    {
        match split_tag(text) {
            Some((algorithm, rest)) => match from_base64(rest) {
                Ok(digest) => Ok(Integrity { algorithm, digest }),
                Err(_) => Err(Error::ParseError),
            },
            None => Err(Error::ParseError),
        }
    }
}

} // verus!
