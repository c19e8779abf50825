use cacache::algorithm::Algorithm;
use cacache::bytes::{append_bytes, copy_bytes, same_bytes, same_text};
use cacache::hasher::compute;
use cacache::hex;
use cacache::integrity::Integrity;
use cacache::number::{append_be_bytes, read_be_bytes};
use cacache::path::{append_hex, bucket_path, content_path};
use cacache::split::split_bytes;

#[test]
fn hex_encode_is_lowercase_two_digits_a_byte() {
    assert_eq!(hex::encode(&[]), b"".to_vec());
    assert_eq!(hex::encode(&[0x00]), b"00".to_vec());
    assert_eq!(hex::encode(&[0x0f, 0xf0, 0xab, 0x19]), b"0ff0ab19".to_vec());
    assert_eq!(hex::encode(&[0xff, 0x9a]), b"ff9a".to_vec());
    assert_eq!(hex::encode(b"hello"), b"68656c6c6f".to_vec());
}

#[test]
fn hex_decode_reads_lowercase_hex_only() {
    assert_eq!(hex::decode(b""), Some(vec![]));
    assert_eq!(hex::decode(b"0ff0ab19"), Some(vec![0x0f, 0xf0, 0xab, 0x19]));
    assert_eq!(hex::decode(b"68656c6c6f"), Some(b"hello".to_vec()));
    assert_eq!(hex::decode(b"0"), None);
    assert_eq!(hex::decode(b"abc"), None);
    assert_eq!(hex::decode(b"AB"), None);
    assert_eq!(hex::decode(b"0g"), None);
    assert_eq!(hex::decode(b"g0"), None);
    assert_eq!(hex::decode(b" 0"), None);
    assert_eq!(hex::decode(b"0/"), None);
    assert_eq!(hex::decode(b"0:"), None);
    assert_eq!(hex::decode(b"`0"), None);
}

#[test]
fn hex_round_trip_of_every_byte() {
    let all: Vec<u8> = (0..=255u8).collect();
    let text = hex::encode(&all);
    assert_eq!(text.len(), 512);
    assert_eq!(hex::decode(&text), Some(all));
}

#[test]
fn append_hex_appends_text() {
    let mut text = String::from("x:");
    append_hex(&mut text, &[0xde, 0xad, 0x01]);
    assert_eq!(text, "x:dead01");
    append_hex(&mut text, &[]);
    assert_eq!(text, "x:dead01");
}

#[test]
fn content_path_is_sharded_by_the_first_two_bytes() {
    let sri = compute(Algorithm::Sha256, b"hello world");
    assert_eq!(
        content_path(&sri),
        "content-v2/sha256/b9/4d/27b9934d3e08a52e52d7da7dabfac484efe37a5380ee9088f7ace2efcde9"
    );
    let sha1 = compute(Algorithm::Sha1, b"hello world");
    assert_eq!(
        content_path(&sha1),
        "content-v2/sha1/2a/ae/6c35c94fcfb415dbe95f408b9ce91ee846ed"
    );
}

#[test]
fn content_path_of_short_digests() {
    let path_of = |digest: &[u8]| {
        content_path(&Integrity {
            algorithm: Algorithm::Xxh3,
            digest: digest.to_vec(),
        })
    };
    assert_eq!(path_of(&[]), "content-v2/xxh3///");
    assert_eq!(path_of(&[0xab]), "content-v2/xxh3/ab//");
    assert_eq!(path_of(&[0xab, 0xcd]), "content-v2/xxh3/ab/cd/");
    assert_eq!(path_of(&[0xab, 0xcd, 0xef]), "content-v2/xxh3/ab/cd/ef");
    assert_eq!(path_of(&[0xab, 0xcd, 0xef, 0x01]), "content-v2/xxh3/ab/cd/ef01");
}

#[test]
fn different_addresses_have_different_paths() {
    let digests: [&[u8]; 6] = [&[], &[0xab], &[0xab, 0xcd], &[0xab, 0xcd, 0xef], &[0xab, 0xc0], &[0xa0]];
    let algorithms = [Algorithm::Sha256, Algorithm::Sha1, Algorithm::Xxh3];
    let mut seen: Vec<String> = Vec::new();
    for algorithm in algorithms.iter() {
        for digest in digests.iter() {
            let path = content_path(&Integrity {
                algorithm: *algorithm,
                digest: digest.to_vec(),
            });
            assert!(!seen.contains(&path), "{}", path);
            seen.push(path);
        }
    }
}

#[test]
fn bucket_path_is_sharded_by_the_digest_of_the_key() {
    assert_eq!(
        bucket_path("hello"),
        "index-v5/2c/f2/4dba5fb0a30e26e83b2ac5b9e29e1b161e5c1fa7425e73043362938b9824"
    );
    assert_eq!(
        bucket_path(""),
        "index-v5/e3/b0/c44298fc1c149afbf4c8996fb92427ae41e4649b934ca495991b7852b855"
    );
    assert_ne!(bucket_path("a"), bucket_path("b"));
    assert_eq!(bucket_path("h\u{e9}"), bucket_path("h\u{e9}"));
}

#[test]
fn big_endian_bytes_of_numbers() {
    let mut out = vec![9u8];
    append_be_bytes(&mut out, 0x0102, 4);
    assert_eq!(out, vec![9, 0, 0, 1, 2]);
    let mut cut = Vec::new();
    append_be_bytes(&mut cut, 0x010203, 2);
    assert_eq!(cut, vec![2, 3]);
    let mut none = Vec::new();
    append_be_bytes(&mut none, 77, 0);
    assert_eq!(none, Vec::<u8>::new());
    let mut max = Vec::new();
    append_be_bytes(&mut max, u128::MAX, 16);
    assert_eq!(max, vec![0xff; 16]);
}

#[test]
fn numbers_of_big_endian_bytes() {
    assert_eq!(read_be_bytes(&[]), Some(0));
    assert_eq!(read_be_bytes(&[1, 2]), Some(258));
    assert_eq!(read_be_bytes(&[0, 0, 0, 7]), Some(7));
    assert_eq!(read_be_bytes(&[0xff; 16]), Some(u128::MAX));
    assert_eq!(read_be_bytes(&[0; 40]), Some(0));
    let mut too_big = vec![1u8];
    too_big.extend_from_slice(&[0; 16]);
    assert_eq!(read_be_bytes(&too_big), None);
    let mut padded = vec![0u8];
    padded.extend_from_slice(&[0xff; 16]);
    assert_eq!(read_be_bytes(&padded), Some(u128::MAX));
    for value in [0u128, 1, 255, 256, 65535, 1 << 64, u128::MAX - 1] {
        let mut bytes = Vec::new();
        append_be_bytes(&mut bytes, value, 16);
        assert_eq!(bytes.len(), 16);
        assert_eq!(read_be_bytes(&bytes), Some(value));
    }
}

#[test]
fn split_cuts_at_every_separator() {
    assert_eq!(split_bytes(b"", b' '), vec![b"".to_vec()]);
    assert_eq!(split_bytes(b"abc", b' '), vec![b"abc".to_vec()]);
    assert_eq!(split_bytes(b"a b", b' '), vec![b"a".to_vec(), b"b".to_vec()]);
    assert_eq!(
        split_bytes(b" a  b ", b' '),
        vec![b"".to_vec(), b"a".to_vec(), b"".to_vec(), b"b".to_vec(), b"".to_vec()]
    );
    assert_eq!(split_bytes(b"\n", b'\n'), vec![b"".to_vec(), b"".to_vec()]);
    assert_eq!(split_bytes(b"a b", b'\n'), vec![b"a b".to_vec()]);
}

#[test]
fn byte_helpers() {
    assert_eq!(copy_bytes(b"abc"), b"abc".to_vec());
    assert_eq!(copy_bytes(b""), Vec::<u8>::new());
    let mut to = b"ab".to_vec();
    append_bytes(&mut to, b"cd");
    append_bytes(&mut to, b"");
    assert_eq!(to, b"abcd".to_vec());
    assert!(same_bytes(b"", b""));
    assert!(same_bytes(b"abc", b"abc"));
    assert!(!same_bytes(b"abc", b"abd"));
    assert!(!same_bytes(b"abc", b"ab"));
    assert!(!same_bytes(b"ab", b"abc"));
    assert!(same_text("h\u{e9}llo", "h\u{e9}llo"));
    assert!(!same_text("hello", "h\u{e9}llo"));
    assert!(!same_text("a", ""));
}
