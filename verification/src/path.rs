//! Where a cache directory keeps its files: paths relative to the cache
//! root, made of the lowercase hexadecimal text of a digest.
use vstd::prelude::*;
use vstd::slice::slice_subrange;
use vstd::string::*;
use vstd::utf8::*;
use crate::algorithm::{lemma_name_injective, Algorithm};
use crate::hasher::{compute, digest_of};
use crate::hex;
use crate::index::{latest, law_latest_in_part, EntryView};
use crate::integrity::{Integrity, Sri};
use crate::split::{all_free_of, free_of, join, lemma_split_join};

verus! {

/// The text whose characters have the ASCII codes `codes`.
pub open spec fn text_of_codes(codes: Seq<u8>) -> Seq<char> {
    Seq::new(codes.len(), |i: int| codes[i] as char)
}

/// The hexadecimal text of `bytes`, as characters.
pub open spec fn hex_text(bytes: Seq<u8>) -> Seq<char> {
    text_of_codes(hex::encoded(bytes))
}

/// The first `n` bytes of `digest`, or all of it where it is shorter.
pub open spec fn head(digest: Seq<u8>, n: int) -> Seq<u8> {
    if n <= digest.len() {
        digest.subrange(0, n)
    } else {
        digest
    }
}

/// What is left of `digest` behind its first `n` bytes.
pub open spec fn tail(digest: Seq<u8>, n: int) -> Seq<u8> {
    if n <= digest.len() {
        digest.subrange(n, digest.len() as int)
    } else {
        Seq::empty()
    }
}

/// The three shards of a digest: the hexadecimal text of its first byte,
/// of its second byte, and of the rest. A shard is empty where the digest
/// is too short to fill it.
pub open spec fn shards(digest: Seq<u8>) -> Seq<Seq<char>> {
    seq![
        hex_text(head(digest, 1)),
        hex_text(head(tail(digest, 1), 1)),
        hex_text(tail(digest, 2)),
    ]
}

/// The name of the directory of the content store.
pub open spec fn content_dir() -> Seq<char> {
    seq!['c', 'o', 'n', 't', 'e', 'n', 't', '-', 'v', '2']
}

/// The name of the directory of the index.
pub open spec fn index_dir() -> Seq<char> {
    seq!['i', 'n', 'd', 'e', 'x', '-', 'v', '5']
}

/// The names along the path of the blob kept under `sri`: the content
/// directory, a directory named by the algorithm, a directory for each of
/// the first two bytes of the digest, and a file named by the rest. So no
/// directory gets more than 256 subdirectories.
pub open spec fn content_parts(sri: Sri) -> Seq<Seq<char>> {
    seq![content_dir(), sri.algorithm.spec_name()] + shards(sri.digest)
}

/// The path of the blob kept under `sri`: its names with a slash between
/// each two.
pub open spec fn content_path_of(sri: Sri) -> Seq<char> {
    join(content_parts(sri), '/')
}

/// The names along the path of the index file that holds the entries of
/// `key`: the index directory and the shards of the SHA-256 digest of the
/// key's UTF-8 bytes.
pub open spec fn bucket_parts(key: Seq<char>) -> Seq<Seq<char>> {
    seq![index_dir()] + shards(digest_of(Algorithm::Sha256, encode_utf8(key)))
}

/// The path of the index file that holds the entries of `key`.
pub open spec fn bucket_path_of(key: Seq<char>) -> Seq<char> {
    join(bucket_parts(key), '/')
}

/// What the shards of `digest`, each behind a slash, add to a path.
pub open spec fn sharded(digest: Seq<u8>) -> Seq<char> {
    seq!['/'] + shards(digest)[0] + seq!['/'] + shards(digest)[1] + seq!['/'] + shards(digest)[2]
}

/// Hexadecimal text holds no slash.
proof fn lemma_hex_text_free(bytes: Seq<u8>)
    ensures
        free_of(hex_text(bytes), '/'),
{
    hex::lemma_decoded_encoded(bytes);
    assert forall|i: int| 0 <= i < hex_text(bytes).len() implies #[trigger] hex_text(bytes)[i]
        != '/' by {
        let code = hex::encoded(bytes)[i];
        assert(hex::is_digit(code));
        assert(hex_text(bytes)[i] == code as char);
    }
}

/// The hexadecimal text determines the bytes.
proof fn lemma_hex_text_injective(a: Seq<u8>, b: Seq<u8>)
    requires
        hex_text(a) == hex_text(b),
    ensures
        a == b,
{
    assert(hex::encoded(a).len() == hex_text(a).len());
    assert(hex::encoded(b).len() == hex_text(b).len());
    assert forall|i: int| 0 <= i < hex::encoded(a).len() implies hex::encoded(a)[i]
        == hex::encoded(b)[i] by {
        assert(hex_text(a)[i] == hex::encoded(a)[i] as char);
        assert(hex_text(b)[i] == hex::encoded(b)[i] as char);
        assert((hex::encoded(a)[i] as char) as u8 == hex::encoded(a)[i]);
        assert((hex::encoded(b)[i] as char) as u8 == hex::encoded(b)[i]);
    }
    assert(hex::encoded(a) =~= hex::encoded(b));
    hex::lemma_encoded_injective(a, b);
}

/// The shards determine the digest.
proof fn lemma_shards_injective(a: Seq<u8>, b: Seq<u8>)
    requires
        shards(a) == shards(b),
    ensures
        a == b,
{
    assert(shards(a)[0] == shards(b)[0]);
    assert(shards(a)[1] == shards(b)[1]);
    assert(shards(a)[2] == shards(b)[2]);
    lemma_hex_text_injective(head(a, 1), head(b, 1));
    lemma_hex_text_injective(head(tail(a, 1), 1), head(tail(b, 1), 1));
    lemma_hex_text_injective(tail(a, 2), tail(b, 2));
    assert(a =~= head(a, 1) + head(tail(a, 1), 1) + tail(a, 2));
    assert(b =~= head(b, 1) + head(tail(b, 1), 1) + tail(b, 2));
}

/// No name along the path of a blob holds a slash.
proof fn lemma_content_parts_free(sri: Sri)
    ensures
        all_free_of(content_parts(sri), '/'),
        content_parts(sri).len() == 5,
{
    let parts = content_parts(sri);
    lemma_hex_text_free(head(sri.digest, 1));
    lemma_hex_text_free(head(tail(sri.digest, 1), 1));
    lemma_hex_text_free(tail(sri.digest, 2));
    assert(free_of(parts[0], '/'));
    assert(free_of(parts[1], '/'));
    assert(parts[2] == shards(sri.digest)[0]);
    assert(parts[3] == shards(sri.digest)[1]);
    assert(parts[4] == shards(sri.digest)[2]);
}

/// Each blob has a path of its own: two addresses with the same content
/// path are the same address.
pub proof fn law_content_path_injective(a: Sri, b: Sri)
    requires
        content_path_of(a) == content_path_of(b),
    ensures
        a == b,
{
    lemma_content_parts_free(a);
    lemma_content_parts_free(b);
    lemma_split_join(content_parts(a), '/');
    lemma_split_join(content_parts(b), '/');
    let pa = content_parts(a);
    let pb = content_parts(b);
    assert(pa == pb);
    assert(pa[1] == a.algorithm.spec_name());
    assert(pb[1] == b.algorithm.spec_name());
    lemma_name_injective(a.algorithm, b.algorithm);
    assert(shards(a.digest) =~= pa.subrange(2, 5));
    assert(shards(b.digest) =~= pb.subrange(2, 5));
    lemma_shards_injective(a.digest, b.digest);
}

/// Whether the entry `entry` belongs in the index file of `key`.
pub open spec fn in_bucket_of(key: Seq<char>) -> spec_fn(EntryView) -> bool {
    |entry: EntryView| bucket_path_of(entry.key) == bucket_path_of(key)
}

/// The index file of a key is enough to resolve it: among the entries that
/// belong in that file, the key resolves as it does in the whole log.
pub proof fn law_bucket_resolves_key(log: Seq<EntryView>, key: Seq<char>)
    ensures
        latest(log.filter(in_bucket_of(key)), key) == latest(log, key),
{
    law_latest_in_part(log, in_bucket_of(key), key);
}

/// Unfolds the path of a blob into its names and slashes.
proof fn lemma_content_path_unfolded(sri: Sri)
    ensures
        content_path_of(sri) == content_dir() + seq!['/'] + sri.algorithm.spec_name() + sharded(
            sri.digest,
        ),
{
    let parts = content_parts(sri);
    let p1 = parts.subrange(0, 1);
    let p2 = parts.subrange(0, 2);
    let p3 = parts.subrange(0, 3);
    let p4 = parts.subrange(0, 4);
    assert(p2.drop_last() =~= p1);
    assert(p3.drop_last() =~= p2);
    assert(p4.drop_last() =~= p3);
    assert(parts.drop_last() =~= p4);
    assert(join(p1, '/') == parts[0]);
    assert(join(p2, '/') == join(p1, '/') + seq!['/'] + parts[1]);
    assert(join(p3, '/') == join(p2, '/') + seq!['/'] + parts[2]);
    assert(join(p4, '/') == join(p3, '/') + seq!['/'] + parts[3]);
    assert(join(parts, '/') == join(p4, '/') + seq!['/'] + parts[4]);
    assert(join(parts, '/') =~= content_dir() + seq!['/'] + sri.algorithm.spec_name() + sharded(
        sri.digest,
    ));
}

/// Unfolds the path of an index file into its names and slashes.
proof fn lemma_bucket_path_unfolded(key: Seq<char>)
    ensures
        bucket_path_of(key) == index_dir() + sharded(
            digest_of(Algorithm::Sha256, encode_utf8(key)),
        ),
{
    let parts = bucket_parts(key);
    let p1 = parts.subrange(0, 1);
    let p2 = parts.subrange(0, 2);
    let p3 = parts.subrange(0, 3);
    assert(p2.drop_last() =~= p1);
    assert(p3.drop_last() =~= p2);
    assert(parts.drop_last() =~= p3);
    assert(join(p1, '/') == parts[0]);
    assert(join(p2, '/') == join(p1, '/') + seq!['/'] + parts[1]);
    assert(join(p3, '/') == join(p2, '/') + seq!['/'] + parts[2]);
    assert(join(parts, '/') == join(p3, '/') + seq!['/'] + parts[3]);
    assert(join(parts, '/') =~= index_dir() + sharded(
        digest_of(Algorithm::Sha256, encode_utf8(key)),
    ));
}

/// The hexadecimal digit for the four-bit value `n`, as a text.
fn digit_text(n: u8) -> (text: &'static str)
    requires
        n < 16,
    ensures
        text@ == seq![hex::digit(n) as char],
{
    proof {
        reveal_strlit("0");
        reveal_strlit("1");
        reveal_strlit("2");
        reveal_strlit("3");
        reveal_strlit("4");
        reveal_strlit("5");
        reveal_strlit("6");
        reveal_strlit("7");
        reveal_strlit("8");
        reveal_strlit("9");
        reveal_strlit("a");
        reveal_strlit("b");
        reveal_strlit("c");
        reveal_strlit("d");
        reveal_strlit("e");
        reveal_strlit("f");
    }
    let text = match n {
        0 => "0",
        1 => "1",
        2 => "2",
        3 => "3",
        4 => "4",
        5 => "5",
        6 => "6",
        7 => "7",
        8 => "8",
        9 => "9",
        10 => "a",
        11 => "b",
        12 => "c",
        13 => "d",
        14 => "e",
        _ => "f",
    };
    assert(text@ =~= seq![hex::digit(n) as char]);
    text
}

/// Appends the hexadecimal text of `bytes` to `text`.
pub fn append_hex(text: &mut String, bytes: &[u8])
    ensures
        final(text)@ == old(text)@ + hex_text(bytes@),
{
    let mut i: usize = 0;
    assert(text@ =~= old(text)@ + hex_text(bytes@.subrange(0, 0)));
    while i < bytes.len()
        invariant
            i <= bytes.len(),
            text@ == old(text)@ + hex_text(bytes@.subrange(0, i as int)),
        decreases bytes.len() - i,
    {
        let b: u8 = bytes[i];
        text.append(digit_text(b / 16));
        text.append(digit_text(b % 16));
        i = i + 1;
        assert(text@ =~= old(text)@ + hex_text(bytes@.subrange(0, i as int)));
    }
    assert(bytes@.subrange(0, i as int) =~= bytes@);
}

/// Appends the shards of `digest` to `text`, each behind a slash.
fn append_sharded(text: &mut String, digest: &[u8])
    ensures
        final(text)@ == old(text)@ + sharded(digest@),
{
    let n: usize = digest.len();
    let first: usize = if 1 <= n {
        1
    } else {
        n
    };
    let second: usize = if 2 <= n {
        2
    } else {
        n
    };
    proof {
        reveal_strlit("/");
        assert("/"@ =~= seq!['/']);
        assert(digest@.subrange(0, first as int) =~= head(digest@, 1));
        assert(digest@.subrange(first as int, second as int) =~= head(tail(digest@, 1), 1));
        assert(digest@.subrange(second as int, n as int) =~= tail(digest@, 2));
    }
    text.append("/");
    append_hex(text, slice_subrange(digest, 0, first));
    text.append("/");
    append_hex(text, slice_subrange(digest, first, second));
    text.append("/");
    append_hex(text, slice_subrange(digest, second, n));
    assert(text@ =~= old(text)@ + sharded(digest@));
}

/// The path, relative to the cache root, of the file that keeps the blob
/// under `sri`.
pub fn content_path(sri: &Integrity) -> (path: String)
    ensures
        path@ == content_path_of(sri@),
{
    proof {
        reveal_strlit("content-v2/");
        lemma_content_path_unfolded(sri@);
    }
    let mut path = String::from_str("content-v2/");
    assert(path@ =~= content_dir() + seq!['/']);
    path.append(sri.algorithm.name());
    append_sharded(&mut path, sri.digest.as_slice());
    assert(path@ =~= content_dir() + seq!['/'] + sri.algorithm.spec_name() + sharded(
        sri.digest@,
    ));
    path
}

/// The path, relative to the cache root, of the index file that holds the
/// entries of `key`.
pub fn bucket_path(key: &str) -> (path: String)
    ensures
        path@ == bucket_path_of(key@),
{
    proof {
        reveal_strlit("index-v5");
        lemma_bucket_path_unfolded(key@);
    }
    let sri = compute(Algorithm::Sha256, key.as_bytes());
    let mut path = String::from_str("index-v5");
    assert(path@ =~= index_dir());
    append_sharded(&mut path, sri.digest.as_slice());
    path
}

} // verus!
