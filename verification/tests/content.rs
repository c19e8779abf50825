use cacache::algorithm::Algorithm;
use cacache::content::ContentStore;
use cacache::errors::Error;
use cacache::hasher::compute;
use cacache::integrity::Integrity;
use cacache::reader::Reader;
use cacache::writer::Writer;

#[test]
fn write_keeps_the_bytes_under_their_digest() {
    let mut store = ContentStore::new();
    let sri = store.write(Algorithm::Sha256, b"hello world");
    assert_eq!(sri, compute(Algorithm::Sha256, b"hello world"));
    assert!(store.has(&sri));
    assert_eq!(store.read(&sri), Ok(b"hello world".to_vec()));
    let other = store.write(Algorithm::Sha1, b"hello world");
    assert_ne!(sri, other);
    assert_eq!(store.read(&other), Ok(b"hello world".to_vec()));
    assert_eq!(store.read(&sri), Ok(b"hello world".to_vec()));
}

#[test]
fn empty_store_has_nothing() {
    let store = ContentStore::new();
    let sri = compute(Algorithm::Sha256, b"");
    assert!(!store.has(&sri));
    assert_eq!(store.read(&sri), Err(Error::NotFound));
    assert!(matches!(store.open(sri.clone()), Err(Error::NotFound)));
    let mut to = vec![1u8];
    assert_eq!(store.copy(&sri, &mut to), Err(Error::NotFound));
    assert_eq!(to, vec![1u8]);
}

#[test]
fn empty_blob_is_a_blob() {
    let mut store = ContentStore::new();
    let sri = store.write(Algorithm::Sha256, b"");
    assert!(store.has(&sri));
    assert_eq!(store.read(&sri), Ok(Vec::new()));
    let mut to = vec![1u8, 2];
    assert_eq!(store.copy(&sri, &mut to), Ok(0));
    assert_eq!(to, Vec::<u8>::new());
}

#[test]
fn write_leaves_an_existing_blob_alone() {
    let mut store = ContentStore::new();
    let sri = store.write(Algorithm::Sha256, b"hello world");
    assert_eq!(store.write(Algorithm::Sha256, b"hello world"), sri);
    assert_eq!(store.read(&sri), Ok(b"hello world".to_vec()));
    store.restore(sri.clone(), b"tampered".to_vec());
    assert_eq!(store.read(&sri), Err(Error::IntegrityMismatch));
    assert_eq!(store.write(Algorithm::Sha256, b"hello world"), sri);
    assert_eq!(store.read(&sri), Err(Error::IntegrityMismatch));
    let mut kept = Vec::new();
    assert_eq!(store.copy(&sri, &mut kept), Err(Error::IntegrityMismatch));
    assert_eq!(kept, b"tampered".to_vec());
}

#[test]
fn restore_puts_bytes_in_place_of_what_was_there() {
    let mut store = ContentStore::new();
    let a = compute(Algorithm::Sha256, b"a");
    let b = compute(Algorithm::Sha256, b"b");
    store.restore(a.clone(), b"not a".to_vec());
    assert_eq!(store.read(&a), Err(Error::IntegrityMismatch));
    store.restore(b.clone(), b"b".to_vec());
    store.restore(a.clone(), b"a".to_vec());
    assert_eq!(store.read(&a), Ok(b"a".to_vec()));
    assert_eq!(store.read(&b), Ok(b"b".to_vec()));
    store.restore(b.clone(), b"bb".to_vec());
    assert_eq!(store.read(&b), Err(Error::IntegrityMismatch));
    assert_eq!(store.read(&a), Ok(b"a".to_vec()));
}

#[test]
fn commit_takes_the_address_it_is_given() {
    let mut store = ContentStore::new();
    let address = Integrity {
        algorithm: Algorithm::Sha1,
        digest: vec![1, 2, 3],
    };
    store.commit(address.clone(), b"first".to_vec());
    store.commit(address.clone(), b"second".to_vec());
    assert!(store.has(&address));
    let mut to = Vec::new();
    assert_eq!(store.copy(&address, &mut to), Err(Error::IntegrityMismatch));
    assert_eq!(to, b"first".to_vec());
}

#[test]
fn copy_overwrites_the_destination() {
    let mut store = ContentStore::new();
    let sri = store.write(Algorithm::Sha512, b"content");
    let mut to = b"something much longer than the content".to_vec();
    assert_eq!(store.copy(&sri, &mut to), Ok(7));
    assert_eq!(to, b"content".to_vec());
}

#[test]
fn address_is_algorithm_and_digest() {
    let mut store = ContentStore::new();
    let sri = store.write(Algorithm::Sha256, b"x");
    let relabelled = Integrity {
        algorithm: Algorithm::Sha384,
        digest: sri.digest.clone(),
    };
    let mut longer = sri.clone();
    longer.digest.push(0);
    assert!(!store.has(&relabelled));
    assert!(!store.has(&longer));
    assert!(store.has(&sri));
}

#[test]
fn reader_hands_out_the_blob_in_order() {
    let sri = compute(Algorithm::Sha256, b"0123456789");
    let mut reader = Reader::new(b"0123456789".to_vec(), sri);
    let mut three = vec![b'x'; 3];
    assert_eq!(reader.read(&mut three), 3);
    assert_eq!(three, b"012".to_vec());
    let mut four = vec![b'x'; 4];
    assert_eq!(reader.read(&mut four), 4);
    assert_eq!(four, b"3456".to_vec());
    let mut five = vec![b'x'; 5];
    assert_eq!(reader.read(&mut five), 3);
    assert_eq!(five, b"789xx".to_vec());
    assert_eq!(reader.read(&mut five), 0);
    assert_eq!(five, b"789xx".to_vec());
    assert_eq!(reader.check(), Ok(Algorithm::Sha256));
}

#[test]
fn reader_of_an_empty_blob() {
    let mut reader = Reader::new(Vec::new(), compute(Algorithm::Sha1, b""));
    let mut buf = vec![0u8; 8];
    assert_eq!(reader.read(&mut buf), 0);
    assert_eq!(reader.check(), Ok(Algorithm::Sha1));
}

#[test]
fn reader_from_the_store() {
    let mut store = ContentStore::new();
    let sri = store.write(Algorithm::Sha384, b"streamed");
    let mut reader = store.open(sri).unwrap();
    let mut buf = vec![0u8; 100];
    assert_eq!(reader.read(&mut buf), 8);
    assert_eq!(&buf[..8], b"streamed");
    assert_eq!(reader.check(), Ok(Algorithm::Sha384));
}

#[test]
fn writer_commits_what_was_written() {
    let mut store = ContentStore::new();
    let mut writer = Writer::new(Algorithm::Sha256);
    assert_eq!(writer.len(), 0);
    assert_eq!(writer.write(b"hello "), 6);
    assert_eq!(writer.write(b"world"), 5);
    assert_eq!(writer.len(), 11);
    let sri = writer.commit(&mut store);
    assert_eq!(sri, compute(Algorithm::Sha256, b"hello world"));
    assert_eq!(store.read(&sri), Ok(b"hello world".to_vec()));
}

#[test]
fn writer_that_is_dropped_commits_nothing() {
    let store = ContentStore::new();
    {
        let mut writer = Writer::new(Algorithm::Sha256);
        writer.write(b"never committed");
    }
    assert!(!store.has(&compute(Algorithm::Sha256, b"never committed")));
}

#[test]
fn writer_of_nothing_commits_the_empty_blob() {
    let mut store = ContentStore::new();
    let sri = Writer::new(Algorithm::Sha1).commit(&mut store);
    assert_eq!(sri, compute(Algorithm::Sha1, b""));
    assert_eq!(store.read(&sri), Ok(Vec::new()));
}

#[test]
fn addresses_lists_each_kept_address_once() {
    let mut store = ContentStore::new();
    assert_eq!(store.addresses(), Vec::<Integrity>::new());
    let a = store.write(Algorithm::Sha256, b"a");
    let b = store.write(Algorithm::Sha256, b"b");
    store.write(Algorithm::Sha256, b"a");
    store.restore(a.clone(), b"tampered".to_vec());
    store.restore(b.clone(), b"b".to_vec());
    let c = compute(Algorithm::Sha1, b"c");
    store.restore(c.clone(), b"c".to_vec());
    let mut all = store.addresses();
    all.sort_by(|x, y| x.digest.cmp(&y.digest));
    let mut expected = vec![a, b, c];
    expected.sort_by(|x, y| x.digest.cmp(&y.digest));
    assert_eq!(all, expected);
}

#[test]
fn drain_appends_what_is_left() {
    let long: Vec<u8> = (0..9_000u32).map(|i| (i % 13) as u8).collect();
    let sri = compute(Algorithm::Sha256, &long);
    let mut reader = Reader::new(long.clone(), sri);
    let mut head = vec![0u8; 100];
    assert_eq!(reader.read(&mut head), 100);
    let mut out = b"kept".to_vec();
    reader.drain(&mut out);
    assert_eq!(&out[..4], b"kept");
    assert_eq!(&out[4..], &long[100..]);
    let mut more = vec![0u8; 8];
    assert_eq!(reader.read(&mut more), 0);
    reader.drain(&mut out);
    assert_eq!(out.len(), 4 + 8_900);
    assert_eq!(reader.check(), Ok(Algorithm::Sha256));
}

#[test]
fn read_to_end_gives_the_rest_and_checks_the_whole() {
    let sri = compute(Algorithm::Sha1, b"0123456789");
    let mut reader = Reader::new(b"0123456789".to_vec(), sri.clone());
    let mut four = vec![0u8; 4];
    assert_eq!(reader.read(&mut four), 4);
    assert_eq!(reader.read_to_end(), Ok(b"456789".to_vec()));
    let whole = Reader::new(b"0123456789".to_vec(), sri.clone());
    assert_eq!(whole.read_to_end(), Ok(b"0123456789".to_vec()));
    let wrong = Reader::new(b"0123456780".to_vec(), sri);
    assert_eq!(wrong.read_to_end(), Err(Error::IntegrityMismatch));
}

#[test]
fn remove_takes_the_blob_away() {
    let mut store = ContentStore::new();
    let a = store.write(Algorithm::Sha256, b"a");
    let b = store.write(Algorithm::Sha256, b"b");
    assert!(!store.remove(&compute(Algorithm::Sha256, b"c")));
    assert!(store.remove(&a));
    assert!(!store.remove(&a));
    assert!(!store.has(&a));
    assert_eq!(store.read(&a), Err(Error::NotFound));
    assert_eq!(store.read(&b), Ok(b"b".to_vec()));
    assert_eq!(store.addresses(), vec![b.clone()]);
    assert_eq!(store.write(Algorithm::Sha256, b"a"), a);
    assert_eq!(store.read(&a), Ok(b"a".to_vec()));
    assert!(store.remove(&b));
    assert!(store.remove(&a));
    assert_eq!(store.addresses(), Vec::<Integrity>::new());
}

#[test]
fn remove_clears_a_tampered_blob_for_a_fresh_write() {
    let mut store = ContentStore::new();
    let sri = store.write(Algorithm::Sha1, b"bytes");
    store.restore(sri.clone(), b"rot".to_vec());
    assert_eq!(store.read(&sri), Err(Error::IntegrityMismatch));
    assert!(store.remove(&sri));
    assert_eq!(store.write(Algorithm::Sha1, b"bytes"), sri);
    assert_eq!(store.read(&sri), Ok(b"bytes".to_vec()));
}
