use cacache::algorithm::Algorithm;
use cacache::index::{Entry, Index};
use cacache::integrity::Integrity;
use cacache::record::{decode_entry, decode_index, encode_entry};

fn sri(byte: u8) -> Integrity {
    Integrity {
        algorithm: Algorithm::Sha256,
        digest: vec![byte, 0xcd],
    }
}

fn entry(key: &str, byte: u8, time: u128) -> Entry {
    Entry {
        key: key.to_owned(),
        integrity: sri(byte),
        time,
        size: 11,
        metadata: vec![0xff],
    }
}

#[test]
fn find_gives_the_latest_entry_of_a_key() {
    let mut index = Index::new();
    assert_eq!(index.find("a"), None);
    index.insert("a", sri(1), 1, 10, vec![]);
    index.insert("b", sri(2), 2, 20, vec![]);
    index.insert("a", sri(3), 3, 30, vec![7]);
    index.insert("c", sri(4), 4, 40, vec![]);
    assert_eq!(index.len(), 4);
    let a = index.find("a").unwrap();
    assert_eq!(a.integrity, sri(3));
    assert_eq!(a.time, 3);
    assert_eq!(a.size, 30);
    assert_eq!(a.metadata, vec![7]);
    assert_eq!(index.find("b").unwrap().integrity, sri(2));
    assert_eq!(index.find("c").unwrap().integrity, sri(4));
    assert_eq!(index.find("d"), None);
    assert_eq!(index.find(""), None);
    assert_eq!(index.find("A"), None);
}

#[test]
fn insert_gives_back_the_entry_it_appended() {
    let mut index = Index::new();
    let made = index.insert("k\u{e9}y", sri(9), 77, 5, vec![1, 2, 3]);
    assert_eq!(
        made,
        Entry {
            key: "k\u{e9}y".to_owned(),
            integrity: sri(9),
            time: 77,
            size: 5,
            metadata: vec![1, 2, 3],
        }
    );
    assert_eq!(index.find("k\u{e9}y"), Some(made.clone()));
    assert_eq!(made.clone(), made);
    assert_eq!(index.len(), 1);
}

#[test]
fn record_appends_an_entry_as_it_is() {
    let mut index = Index::new();
    index.record(entry("k", 1, 5));
    index.record(entry("k", 2, 4));
    assert_eq!(index.find("k"), Some(entry("k", 2, 4)));
    assert_eq!(index.len(), 2);
}

#[test]
fn record_of_an_entry_byte_for_byte() {
    let expected = b"\n6b 02 abcd 00000000000000000000000000000001 0000000000000000000000000000000b ff .";
    assert_eq!(encode_entry(&entry("k", 0xab, 1)), expected.to_vec());
    let bare = Entry {
        key: String::new(),
        integrity: Integrity {
            algorithm: Algorithm::Sha512,
            digest: vec![],
        },
        time: 0,
        size: 0,
        metadata: vec![],
    };
    let expected_bare =
        b"\n 00  00000000000000000000000000000000 00000000000000000000000000000000  .";
    assert_eq!(encode_entry(&bare), expected_bare.to_vec());
}

#[test]
fn line_of_an_entry_is_read_back() {
    let entries = [
        entry("k", 0xab, 1),
        entry("", 0, 0),
        entry("key with spaces\nand a line feed", 3, u128::MAX),
        entry("h\u{e9}llo \u{1f600}", 4, 1 << 100),
        Entry {
            key: "big".to_owned(),
            integrity: Integrity {
                algorithm: Algorithm::Xxh3,
                digest: (0..=255u8).collect(),
            },
            time: 1_700_000_000_000,
            size: u64::MAX,
            metadata: b"{\"a\": 1}\n .".to_vec(),
        },
    ];
    for entry in entries.iter() {
        let record = encode_entry(entry);
        assert_eq!(record[0], b'\n');
        assert!(!record[1..].contains(&b'\n'));
        assert_eq!(decode_entry(&record[1..]), Some(entry.clone()));
    }
}

#[test]
fn lines_that_are_no_record_are_refused() {
    let refused: [&[u8]; 16] = [
        b"",
        b".",
        b"6b 02 abcd 01 0b ff",
        b"6b 02 abcd 01 0b ff ",
        b"6b 02 abcd 01 0b ff ..",
        b"6b 02 abcd 01 0b ff . ",
        b" 6b 02 abcd 01 0b ff .",
        b"6b 02 abcd 01 0b ff . .",
        b"6b  02 abcd 01 0b ff .",
        b"6b 05 abcd 01 0b ff .",
        b"6b 0202 abcd 01 0b ff .",
        b"6b  abcd 01 0b ff .",
        b"6B 02 abcd 01 0b ff .",
        b"6b 02 abc 01 0b ff .",
        b"ff 02 abcd 01 0b ff .",
        b"6b 02 abcd 01 010000000000000000 ff .",
    ];
    for line in refused.iter() {
        assert_eq!(decode_entry(line), None, "{:?}", String::from_utf8_lossy(line));
    }
    let too_late = b"6b 02 abcd 0100000000000000000000000000000000 0b ff .";
    assert_eq!(decode_entry(too_late), None);
}

#[test]
fn numbers_in_a_line_may_be_written_short() {
    let read = decode_entry(b"6b 02 abcd 01 0b ff .").unwrap();
    assert_eq!(read, entry("k", 0xab, 1));
    let empty_numbers = decode_entry(b"6b 02 abcd   ff .").unwrap();
    assert_eq!(empty_numbers.time, 0);
    assert_eq!(empty_numbers.size, 0);
    let largest = decode_entry(b"6b 02 abcd 01 ffffffffffffffff ff .").unwrap();
    assert_eq!(largest.size, u64::MAX);
}

#[test]
fn index_file_is_read_record_by_record() {
    let mut file = Vec::new();
    assert_eq!(decode_index(&file).len(), 0);
    file.extend_from_slice(&encode_entry(&entry("a", 1, 1)));
    file.extend_from_slice(&encode_entry(&entry("b", 2, 2)));
    file.extend_from_slice(&encode_entry(&entry("a", 3, 3)));
    let index = decode_index(&file);
    assert_eq!(index.len(), 3);
    assert_eq!(index.find("a"), Some(entry("a", 3, 3)));
    assert_eq!(index.find("b"), Some(entry("b", 2, 2)));
    assert_eq!(index.find("c"), None);
}

#[test]
fn record_behind_a_torn_record_is_read() {
    let whole = encode_entry(&entry("a", 1, 1));
    for cut in 0..whole.len() {
        let mut file = encode_entry(&entry("first", 9, 9));
        file.extend_from_slice(&whole[..cut]);
        let before = decode_index(&file);
        assert_eq!(before.len(), 1, "cut at {}", cut);
        assert_eq!(before.find("a"), None);
        file.extend_from_slice(&encode_entry(&entry("b", 2, 2)));
        let after = decode_index(&file);
        assert_eq!(after.len(), 2, "cut at {}", cut);
        assert_eq!(after.find("first"), Some(entry("first", 9, 9)));
        assert_eq!(after.find("b"), Some(entry("b", 2, 2)));
        assert_eq!(after.find("a"), None);
    }
}

#[test]
fn record_behind_anything_is_read() {
    let garbage: [&[u8]; 5] = [b"", b"\n\n\n", b"not a record", b"\xff\xfe\x00 . \n .", b"6b 02"];
    for junk in garbage.iter() {
        let mut file = junk.to_vec();
        assert_eq!(decode_index(&file).len(), 0);
        file.extend_from_slice(&encode_entry(&entry("k", 1, 1)));
        let index = decode_index(&file);
        assert_eq!(index.len(), 1);
        assert_eq!(index.find("k"), Some(entry("k", 1, 1)));
    }
}

#[test]
fn key_that_is_not_utf8_is_refused() {
    assert_eq!(decode_entry(b"c3 02 abcd 01 0b ff ."), None);
    assert_eq!(decode_entry(b"c3a9 02 abcd 01 0b ff .").unwrap().key, "\u{e9}");
    assert_eq!(decode_entry(b"68c3a96c6c6f 02 abcd 01 0b ff .").unwrap().key, "h\u{e9}llo");
    assert_eq!(decode_entry(b"eda080 02 abcd 01 0b ff ."), None);
    assert_eq!(decode_entry(b"c0af 02 abcd 01 0b ff ."), None);
}

#[test]
fn entries_are_listed_oldest_first() {
    let mut index = Index::new();
    assert_eq!(index.entries(), Vec::<Entry>::new());
    index.record(entry("a", 1, 1));
    index.record(entry("b", 2, 2));
    index.record(entry("a", 3, 3));
    assert_eq!(
        index.entries(),
        vec![entry("a", 1, 1), entry("b", 2, 2), entry("a", 3, 3)]
    );
    let mut file = Vec::new();
    for entry in index.entries().iter() {
        file.extend_from_slice(&encode_entry(entry));
    }
    assert_eq!(decode_index(&file).entries(), index.entries());
}
