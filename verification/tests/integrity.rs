use cacache::algorithm::Algorithm;
use cacache::errors::Error;
use cacache::hasher::{check, compute, verify, Matcher, Hasher};
use cacache::hex;
use cacache::integrity::{strongest, Integrity};
use cacache::text::{join, split_tag};

const ALL: [Algorithm; 5] = [
    Algorithm::Sha512,
    Algorithm::Sha384,
    Algorithm::Sha256,
    Algorithm::Sha1,
    Algorithm::Xxh3,
];

fn unhex(text: &str) -> Vec<u8> {
    hex::decode(text.as_bytes()).unwrap()
}

#[test]
fn known_digests_of_hello_world() {
    assert_eq!(
        compute(Algorithm::Sha256, b"hello world").digest,
        unhex("b94d27b9934d3e08a52e52d7da7dabfac484efe37a5380ee9088f7ace2efcde9")
    );
    assert_eq!(
        compute(Algorithm::Sha1, b"hello world").digest,
        unhex("2aae6c35c94fcfb415dbe95f408b9ce91ee846ed")
    );
    assert_eq!(
        compute(Algorithm::Sha512, b"hello world").digest,
        unhex(
            "309ecc489c12d6eb4cc40f50c902f2b4d0ed77ee511a7c7a9bcd3ca86d4cd86f\
             989dd35bc5ff499670da34255b45b0cfd830e81f605dcf7dc5542e93ae9cd76f"
        )
    );
    assert_eq!(
        compute(Algorithm::Sha384, b"hello world").digest,
        unhex(
            "fdbd8e75a67f29f701a4e040385e2e23986303ea10239211af907fcbb83578b3\
             e417cb71ce646efd0819dd8c088de1bd"
        )
    );
}

#[test]
fn known_digest_of_nothing() {
    assert_eq!(
        compute(Algorithm::Sha256, b"").digest,
        unhex("e3b0c44298fc1c149afbf4c8996fb92427ae41e4649b934ca495991b7852b855")
    );
    assert_eq!(
        Hasher::new(Algorithm::Sha256).result().digest,
        unhex("e3b0c44298fc1c149afbf4c8996fb92427ae41e4649b934ca495991b7852b855")
    );
}

#[test]
fn computed_integrity_bears_its_algorithm_and_length() {
    let lengths = [64usize, 48, 32, 20, 16];
    for (algorithm, length) in ALL.iter().zip(lengths.iter()) {
        let sri = compute(*algorithm, b"some bytes");
        assert_eq!(sri.algorithm, *algorithm);
        assert_eq!(sri.digest.len(), *length);
    }
}

#[test]
fn different_algorithms_and_different_bytes_give_different_digests() {
    let a = compute(Algorithm::Sha256, b"hello world");
    assert_ne!(a, compute(Algorithm::Sha256, b"hello worle"));
    assert_ne!(a.digest, compute(Algorithm::Sha1, b"hello world").digest);
    assert_ne!(a.digest, b"hello world".to_vec());
}

#[test]
fn hashing_in_chunks_is_hashing_at_once() {
    for algorithm in ALL.iter() {
        let mut hasher = Hasher::new(*algorithm);
        hasher.input(b"hel");
        hasher.input(b"");
        hasher.input(b"lo wor");
        hasher.input(b"ld");
        assert_eq!(hasher.result(), compute(*algorithm, b"hello world"));
    }
}

#[test]
fn check_names_the_algorithm_or_the_mismatch() {
    for algorithm in ALL.iter() {
        let sri = compute(*algorithm, b"hello world");
        assert_eq!(check(&sri, b"hello world"), Ok(*algorithm));
        assert_eq!(check(&sri, b"hello w0rld"), Err(Error::IntegrityMismatch));
        assert_eq!(check(&sri, b""), Err(Error::IntegrityMismatch));
        assert!(verify(&sri, b"hello world"));
        assert!(!verify(&sri, b"hello world "));
    }
}

#[test]
fn check_holds_the_digest_against_its_own_algorithm_only() {
    let sha256 = compute(Algorithm::Sha256, b"hello world");
    let mislabelled = Integrity {
        algorithm: Algorithm::Sha512,
        digest: sha256.digest.clone(),
    };
    assert_eq!(check(&mislabelled, b"hello world"), Err(Error::IntegrityMismatch));
}

#[test]
fn matcher_in_chunks() {
    let sri = compute(Algorithm::Sha512, b"hello world");
    let mut good = Matcher::new(sri.clone());
    good.input(b"hello ");
    good.input(b"world");
    assert_eq!(good.result(), Ok(Algorithm::Sha512));

    let mut short = Matcher::new(sri.clone());
    short.input(b"hello ");
    assert_eq!(short.result(), Err(Error::IntegrityMismatch));

    let mut swapped = Matcher::new(sri.clone());
    swapped.input(b"world");
    swapped.input(b"hello ");
    assert_eq!(swapped.result(), Err(Error::IntegrityMismatch));

    assert_eq!(Matcher::new(sri).result(), Err(Error::IntegrityMismatch));
    let of_nothing = compute(Algorithm::Sha1, b"");
    assert_eq!(Matcher::new(of_nothing).result(), Ok(Algorithm::Sha1));
}

#[test]
fn confirm_compares_algorithm_and_digest() {
    let expected = Integrity {
        algorithm: Algorithm::Sha256,
        digest: vec![1, 2, 3],
    };
    let same = Integrity {
        algorithm: Algorithm::Sha256,
        digest: vec![1, 2, 3],
    };
    let other_digest = Integrity {
        algorithm: Algorithm::Sha256,
        digest: vec![1, 2, 4],
    };
    let shorter = Integrity {
        algorithm: Algorithm::Sha256,
        digest: vec![1, 2],
    };
    let other_algorithm = Integrity {
        algorithm: Algorithm::Sha1,
        digest: vec![1, 2, 3],
    };
    assert_eq!(expected.confirm(&same), Ok(Algorithm::Sha256));
    assert_eq!(expected.confirm(&other_digest), Err(Error::IntegrityMismatch));
    assert_eq!(expected.confirm(&shorter), Err(Error::IntegrityMismatch));
    assert_eq!(expected.confirm(&other_algorithm), Err(Error::IntegrityMismatch));
    assert!(expected.same(&same));
    assert!(!expected.same(&other_digest));
    assert!(!expected.same(&shorter));
    assert!(!expected.same(&other_algorithm));
    assert_eq!(expected.clone(), expected);
}

#[test]
fn algorithms_are_ordered_by_strength() {
    for (rank, algorithm) in ALL.iter().enumerate() {
        assert_eq!(algorithm.rank() as usize, rank);
        assert_eq!(Algorithm::from_rank(rank as u8), Some(*algorithm));
    }
    assert_eq!(Algorithm::from_rank(5), None);
    assert_eq!(Algorithm::from_rank(255), None);
    for (i, a) in ALL.iter().enumerate() {
        for (j, b) in ALL.iter().enumerate() {
            assert_eq!(a.stronger_than(*b), i < j);
        }
    }
}

#[test]
fn strongest_picks_the_stronger_algorithm() {
    let weak = compute(Algorithm::Sha1, b"x");
    let strong = compute(Algorithm::Sha512, b"x");
    assert_eq!(strongest(weak.clone(), strong.clone()), strong);
    assert_eq!(strongest(strong.clone(), weak.clone()), strong);
    let first = Integrity {
        algorithm: Algorithm::Sha256,
        digest: vec![1],
    };
    let second = Integrity {
        algorithm: Algorithm::Sha256,
        digest: vec![2],
    };
    assert_eq!(strongest(first.clone(), second), first);
}

#[test]
fn default_algorithm_is_sha256() {
    assert_eq!(Algorithm::default(), Algorithm::Sha256);
}

#[test]
fn algorithm_names() {
    let names = ["sha512", "sha384", "sha256", "sha1", "xxh3"];
    for (algorithm, name) in ALL.iter().zip(names.iter()) {
        assert_eq!(algorithm.name(), *name);
    }
}

#[test]
fn text_form_of_known_digests() {
    assert_eq!(
        compute(Algorithm::Sha256, b"hello world").to_string(),
        "sha256-uU0nuZNNPgilLlLX2n2r+sSE7+N6U4DukIj3rOLvzek="
    );
    assert_eq!(
        compute(Algorithm::Sha1, b"hello world").to_string(),
        "sha1-Kq5sNclPz7QV2+lfQIuc6R7oRu0="
    );
    assert_eq!(
        compute(Algorithm::Sha256, b"hello").to_string(),
        "sha256-LPJNul+wow4m6DsqxbninhsWHlwfp0JecwQzYpOLmCQ="
    );
}

#[test]
fn text_form_of_given_bytes() {
    let sri = Integrity {
        algorithm: Algorithm::Xxh3,
        digest: b"hello".to_vec(),
    };
    assert_eq!(sri.to_string(), "xxh3-aGVsbG8=");
    let empty = Integrity {
        algorithm: Algorithm::Sha384,
        digest: Vec::new(),
    };
    assert_eq!(empty.to_string(), "sha384-");
    let one = Integrity {
        algorithm: Algorithm::Sha512,
        digest: vec![0xfb],
    };
    assert_eq!(one.to_string(), "sha512-+w==");
}

#[test]
fn parse_reads_the_text_form() {
    let parsed = Integrity::parse("sha256-uU0nuZNNPgilLlLX2n2r+sSE7+N6U4DukIj3rOLvzek=").unwrap();
    assert_eq!(parsed, compute(Algorithm::Sha256, b"hello world"));
    let small = Integrity::parse("sha1-aGVsbG8=").unwrap();
    assert_eq!(small.algorithm, Algorithm::Sha1);
    assert_eq!(small.digest, b"hello".to_vec());
    let empty = Integrity::parse("xxh3-").unwrap();
    assert_eq!(empty.algorithm, Algorithm::Xxh3);
    assert_eq!(empty.digest, Vec::<u8>::new());
}

#[test]
fn parse_of_to_string_is_the_value() {
    let digests: [&[u8]; 5] = [b"", b"a", b"ab", b"abc", &[0, 255, 254, 1, 2, 3, 4]];
    for algorithm in ALL.iter() {
        for digest in digests.iter() {
            let sri = Integrity {
                algorithm: *algorithm,
                digest: digest.to_vec(),
            };
            assert_eq!(Integrity::parse(&sri.to_string()), Ok(sri));
        }
        let computed = compute(*algorithm, b"round trip");
        assert_eq!(Integrity::parse(&computed.to_string()), Ok(computed));
    }
}

#[test]
fn parse_refuses_malformed_text() {
    let malformed = [
        "",
        "sha256",
        "-",
        "-aGVsbG8=",
        "sha7-aGVsbG8=",
        "md5-aGVsbG8=",
        "SHA256-aGVsbG8=",
        " sha256-aGVsbG8=",
        "sha256 aGVsbG8=",
        "sha256-aGVsbG8",
        "sha256-aGVsbG8= ",
        "sha256-aGVs-G8=",
        "sha256-!!!!",
        "sha256-aGVsbG9=",
        "sha256-h\u{e9}llo",
        "sh\u{e9}256-aGVsbG8=",
        "sha25",
        "xxh3",
    ];
    for text in malformed.iter() {
        assert_eq!(Integrity::parse(text), Err(Error::ParseError), "{:?}", text);
    }
}

#[test]
fn split_tag_finds_the_algorithm() {
    assert_eq!(split_tag("sha512-abc"), Some((Algorithm::Sha512, "abc")));
    assert_eq!(split_tag("sha384-"), Some((Algorithm::Sha384, "")));
    assert_eq!(split_tag("sha256-a-b"), Some((Algorithm::Sha256, "a-b")));
    assert_eq!(split_tag("sha1-\u{e9}t\u{e9}"), Some((Algorithm::Sha1, "\u{e9}t\u{e9}")));
    assert_eq!(split_tag("xxh3-sha1-x"), Some((Algorithm::Xxh3, "sha1-x")));
    assert_eq!(split_tag("sha1"), None);
    assert_eq!(split_tag("sha1x-abc"), None);
    assert_eq!(split_tag("sha-abc"), None);
    assert_eq!(split_tag(""), None);
    assert_eq!(split_tag("\u{e9}\u{e9}\u{e9}\u{e9}\u{e9}\u{e9}-abc"), None);
}

#[test]
fn join_writes_tag_and_digest_text() {
    assert_eq!(join(Algorithm::Sha256, "abc"), "sha256-abc");
    assert_eq!(join(Algorithm::Xxh3, ""), "xxh3-");
    assert_eq!(split_tag(&join(Algorithm::Sha1, "x-y")), Some((Algorithm::Sha1, "x-y")));
}
