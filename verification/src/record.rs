//! How the index is written to a file: one record for each entry, each on
//! a line of its own.
//!
//! A record is a line feed followed by seven fields with a space between
//! each two: the key, the rank of the algorithm, the digest, the time, the
//! size and the metadata, each as the hexadecimal text of its bytes, and a
//! full stop that closes the record. A record is only ever appended. A line
//! that is no whole record, such as one that a crash cut short, is passed
//! over, and what is appended behind it is read all the same.
use vstd::prelude::*;
use vstd::utf8::*;
use crate::algorithm::Algorithm;
use crate::bytes::{append_bytes, same_bytes};
use crate::hex;
use crate::index::{Entry, EntryView, Index};
use crate::integrity::{Integrity, Sri};
use crate::number::{
    append_be_bytes,
    be_bytes,
    lemma_number_be_bytes,
    lemma_u128_fits,
    number,
    read_be_bytes,
};
use crate::split::{
    all_free_of,
    free_of,
    join,
    lemma_join_free_of,
    lemma_split_append,
    lemma_split_join,
    split,
    split_bytes,
    views,
};

verus! {

/// The byte between two fields of a record.
pub const SPACE: u8 = 0x20;

/// The byte that begins a record.
pub const NEWLINE: u8 = 0x0a;

/// The byte that closes a record.
pub const STOP: u8 = 0x2e;

/// The fields of the record of `entry`.
pub open spec fn fields_of(entry: EntryView) -> Seq<Seq<u8>> {
    seq![
        hex::encoded(encode_utf8(entry.key)),
        hex::encoded(seq![entry.integrity.algorithm.spec_rank() as u8]),
        hex::encoded(entry.integrity.digest),
        hex::encoded(be_bytes(entry.time as nat, 16)),
        hex::encoded(be_bytes(entry.size as nat, 16)),
        hex::encoded(entry.metadata),
        seq![STOP],
    ]
}

/// The line of `entry`: its fields with a space between each two.
pub open spec fn line_of(entry: EntryView) -> Seq<u8> {
    join(fields_of(entry), SPACE)
}

/// The record of `entry`: a line feed and its line.
pub open spec fn record_of(entry: EntryView) -> Seq<u8> {
    seq![NEWLINE] + line_of(entry)
}

/// Whether the first six of `fields` are hexadecimal text.
pub open spec fn fields_encoded(fields: Seq<Seq<u8>>) -> bool {
    forall|i: int| 0 <= i < 6 ==> hex::is_encoded(#[trigger] fields[i])
}

/// The entry that `fields` are the fields of, if they are those of one.
pub open spec fn entry_of_fields(fields: Seq<Seq<u8>>) -> Option<EntryView> {
    if fields.len() == 7 && fields[6] == seq![STOP] && fields_encoded(fields) {
        let key = hex::decoded(fields[0]);
        let rank = hex::decoded(fields[1]);
        let time = number(hex::decoded(fields[3]));
        let size = number(hex::decoded(fields[4]));
        if valid_utf8(key) && rank.len() == 1 && Algorithm::spec_from_rank(rank[0]) is Some && time
            <= u128::MAX && size <= u64::MAX {
            Some(
                EntryView {
                    key: decode_utf8(key),
                    integrity: Sri {
                        algorithm: Algorithm::spec_from_rank(rank[0])->0,
                        digest: hex::decoded(fields[2]),
                    },
                    time: time as u128,
                    size: size as u64,
                    metadata: hex::decoded(fields[5]),
                },
            )
        } else {
            None
        }
    } else {
        None
    }
}

/// The entry that `line` is the line of, if it is the line of one.
pub open spec fn entry_of_line(line: Seq<u8>) -> Option<EntryView> {
    entry_of_fields(split(line, SPACE))
}

/// Reads one line: [`entry_of_line`] as a function.
pub open spec fn line_reader() -> spec_fn(Seq<u8>) -> Option<EntryView> {
    |line: Seq<u8>| entry_of_line(line)
}

/// The entries that the bytes of an index file hold, oldest first: those
/// of its lines that are the line of an entry.
pub open spec fn entries_of(bytes: Seq<u8>) -> Seq<EntryView> {
    split(bytes, NEWLINE).filter_map(line_reader())
}

/// Hexadecimal text holds neither a space nor a line feed.
proof fn lemma_encoded_free(bytes: Seq<u8>)
    ensures
        free_of(hex::encoded(bytes), SPACE),
        free_of(hex::encoded(bytes), NEWLINE),
{
    hex::lemma_decoded_encoded(bytes);
}

/// The fields of a record hold neither a space nor a line feed.
proof fn lemma_fields_free(entry: EntryView)
    ensures
        all_free_of(fields_of(entry), SPACE),
        all_free_of(fields_of(entry), NEWLINE),
        fields_encoded(fields_of(entry)),
{
    let fields = fields_of(entry);
    lemma_encoded_free(encode_utf8(entry.key));
    lemma_encoded_free(seq![entry.integrity.algorithm.spec_rank() as u8]);
    lemma_encoded_free(entry.integrity.digest);
    lemma_encoded_free(be_bytes(entry.time as nat, 16));
    lemma_encoded_free(be_bytes(entry.size as nat, 16));
    lemma_encoded_free(entry.metadata);
    hex::lemma_decoded_encoded(encode_utf8(entry.key));
    hex::lemma_decoded_encoded(seq![entry.integrity.algorithm.spec_rank() as u8]);
    hex::lemma_decoded_encoded(entry.integrity.digest);
    hex::lemma_decoded_encoded(be_bytes(entry.time as nat, 16));
    hex::lemma_decoded_encoded(be_bytes(entry.size as nat, 16));
    hex::lemma_decoded_encoded(entry.metadata);
    assert(free_of(fields[6], SPACE));
    assert(free_of(fields[6], NEWLINE));
}

/// Round trip of one entry: the line of an entry is read back as that
/// entry.
pub proof fn law_line_round_trip(entry: EntryView)
    ensures
        entry_of_line(line_of(entry)) == Some(entry),
        free_of(line_of(entry), NEWLINE),
{
    let fields = fields_of(entry);
    lemma_fields_free(entry);
    lemma_split_join(fields, SPACE);
    lemma_join_free_of(fields, SPACE, NEWLINE);
    hex::lemma_decoded_encoded(encode_utf8(entry.key));
    hex::lemma_decoded_encoded(seq![entry.integrity.algorithm.spec_rank() as u8]);
    hex::lemma_decoded_encoded(entry.integrity.digest);
    hex::lemma_decoded_encoded(be_bytes(entry.time as nat, 16));
    hex::lemma_decoded_encoded(be_bytes(entry.size as nat, 16));
    hex::lemma_decoded_encoded(entry.metadata);
    encode_utf8_valid_utf8(entry.key);
    encode_utf8_decode_utf8(entry.key);
    lemma_u128_fits(entry.time);
    lemma_u128_fits(entry.size as u128);
    lemma_number_be_bytes(entry.time as nat, 16);
    lemma_number_be_bytes(entry.size as nat, 16);
    let found = entry_of_fields(fields);
    assert(found is Some);
    assert(found->0.integrity == entry.integrity);
    assert(found->0 == entry);
}

/// Appending: whatever an index file holds, be it whole records, a record
/// cut short or anything else, the record of an entry appended to it adds
/// that entry, and only it, behind the entries that were read before.
pub proof fn law_append_record(bytes: Seq<u8>, entry: EntryView)
    ensures
        entries_of(bytes + record_of(entry)) == entries_of(bytes).push(entry),
{
    law_line_round_trip(entry);
    lemma_split_append(bytes, NEWLINE, line_of(entry));
    assert(bytes + record_of(entry) =~= bytes + seq![NEWLINE] + line_of(entry));
    let lines = split(bytes, NEWLINE).push(line_of(entry));
    assert(lines.drop_last() =~= split(bytes, NEWLINE));
    assert(lines.filter_map(line_reader()) =~= entries_of(bytes).push(entry));
}

/// An empty index file holds no entry.
pub proof fn law_empty_file()
    ensures
        entries_of(Seq::<u8>::empty()) == Seq::<EntryView>::empty(),
{
    let lines = split(Seq::<u8>::empty(), NEWLINE);
    assert(lines =~= seq![Seq::<u8>::empty()]);
    assert(lines.drop_last() =~= Seq::<Seq<u8>>::empty());
    assert(split(lines.last(), SPACE).len() == 1);
    assert(lines.drop_last().filter_map(line_reader()) =~= Seq::<EntryView>::empty());
}

/// `std::string::FromUtf8Error`: why a byte string is not a text.
#[verifier::external_type_specification]
#[verifier::external_body]
pub struct ExFromUtf8Error(std::string::FromUtf8Error);

/// `String::from_utf8`: the text that `bytes` is the UTF-8 encoding of, or
/// the error that std reports where `bytes` is not valid UTF-8.
#[verifier::external_body]
fn text_of_utf8(bytes: Vec<u8>) -> (text: Result<String, std::string::FromUtf8Error>)
    ensures
        match text {
            Ok(text) => valid_utf8(bytes@) && text@ == decode_utf8(bytes@),
            Err(_) => !valid_utf8(bytes@),
        },
{
    String::from_utf8(bytes)
}

/// Appends the hexadecimal text of `bytes` to `out`.
fn append_field(out: &mut Vec<u8>, bytes: &[u8])
    ensures
        final(out)@ == old(out)@ + hex::encoded(bytes@),
{
    let text = hex::encode(bytes);
    append_bytes(out, text.as_slice());
}

/// Writes the record of `entry`, to be appended to the index file.
pub fn encode_entry(entry: &Entry) -> (record: Vec<u8>)
    ensures
        record@ == record_of(entry@),
{
    let mut out: Vec<u8> = Vec::new();
    out.push(NEWLINE);
    append_field(&mut out, entry.key.as_str().as_bytes());
    out.push(SPACE);
    let mut rank: Vec<u8> = Vec::new();
    rank.push(entry.integrity.algorithm.rank());
    append_field(&mut out, rank.as_slice());
    out.push(SPACE);
    append_field(&mut out, entry.integrity.digest.as_slice());
    out.push(SPACE);
    let mut time: Vec<u8> = Vec::new();
    append_be_bytes(&mut time, entry.time, 16);
    append_field(&mut out, time.as_slice());
    out.push(SPACE);
    let mut size: Vec<u8> = Vec::new();
    append_be_bytes(&mut size, entry.size as u128, 16);
    append_field(&mut out, size.as_slice());
    out.push(SPACE);
    append_field(&mut out, entry.metadata.as_slice());
    out.push(SPACE);
    out.push(STOP);
    proof {
        let fields = fields_of(entry@);
        assert(rank@ =~= seq![entry@.integrity.algorithm.spec_rank() as u8]);
        assert(time@ =~= be_bytes(entry@.time as nat, 16));
        assert(size@ =~= be_bytes(entry@.size as nat, 16));
        let f1 = fields.subrange(0, 1);
        let f2 = fields.subrange(0, 2);
        let f3 = fields.subrange(0, 3);
        let f4 = fields.subrange(0, 4);
        let f5 = fields.subrange(0, 5);
        let f6 = fields.subrange(0, 6);
        assert(f2.drop_last() =~= f1);
        assert(f3.drop_last() =~= f2);
        assert(f4.drop_last() =~= f3);
        assert(f5.drop_last() =~= f4);
        assert(f6.drop_last() =~= f5);
        assert(fields.drop_last() =~= f6);
        assert(join(f1, SPACE) == fields[0]);
        assert(join(f2, SPACE) == join(f1, SPACE) + seq![SPACE] + fields[1]);
        assert(join(f3, SPACE) == join(f2, SPACE) + seq![SPACE] + fields[2]);
        assert(join(f4, SPACE) == join(f3, SPACE) + seq![SPACE] + fields[3]);
        assert(join(f5, SPACE) == join(f4, SPACE) + seq![SPACE] + fields[4]);
        assert(join(f6, SPACE) == join(f5, SPACE) + seq![SPACE] + fields[5]);
        assert(join(fields, SPACE) == join(f6, SPACE) + seq![SPACE] + fields[6]);
        assert(out@ =~= record_of(entry@));
    }
    out
}

/// Reads one line of an index file: the entry it is the line of, or
/// nothing where it is no whole record.
pub fn decode_entry(line: &[u8]) -> (entry: Option<Entry>)
    ensures
        match entry {
            Some(entry) => entry_of_line(line@) == Some(entry@),
            None => entry_of_line(line@) is None,
        },
{
    let fields = split_bytes(line, SPACE);
    let ghost spec_fields = split(line@, SPACE);
    assert(forall|i: int| 0 <= i < fields@.len() ==> spec_fields[i] == (#[trigger] fields@[i])@);
    if fields.len() != 7 {
        return None;
    }
    let mut stop: Vec<u8> = Vec::new();
    stop.push(STOP);
    assert(stop@ =~= seq![STOP]);
    if !same_bytes(fields[6].as_slice(), stop.as_slice()) {
        return None;
    }
    let key = hex::decode(fields[0].as_slice());
    let rank = hex::decode(fields[1].as_slice());
    let digest = hex::decode(fields[2].as_slice());
    let time = hex::decode(fields[3].as_slice());
    let size = hex::decode(fields[4].as_slice());
    let metadata = hex::decode(fields[5].as_slice());
    match (key, rank, digest, time, size, metadata) {
        (Some(key), Some(rank), Some(digest), Some(time), Some(size), Some(metadata)) => {
            assert(fields_encoded(spec_fields));
            if rank.len() != 1 {
                return None;
            }
            let algorithm = Algorithm::from_rank(rank[0]);
            let time = read_be_bytes(time.as_slice());
            let size = read_be_bytes(size.as_slice());
            match (algorithm, time, size) {
                (Some(algorithm), Some(time), Some(size)) => {
                    if size > u64::MAX as u128 {
                        return None;
                    }
                    match text_of_utf8(key) {
                        Ok(key) => Some(
                            Entry {
                                key,
                                integrity: Integrity { algorithm, digest },
                                time,
                                size: size as u64,
                                metadata,
                            },
                        ),
                        Err(_) => None,
                    }
                },
                _ => None,
            }
        },
        _ => {
            assert(!fields_encoded(spec_fields));
            None
        },
    }
}

/// Reads an index file: the entries of its whole records, oldest first.
pub fn decode_index(bytes: &[u8]) -> (index: Index)
    ensures
        index@ == entries_of(bytes@),
{
    let lines = split_bytes(bytes, NEWLINE);
    let mut index = Index::new();
    let mut i: usize = 0;
    assert(views(lines@).subrange(0, 0) =~= Seq::<Seq<u8>>::empty());
    while i < lines.len()
        invariant
            i <= lines.len(),
            views(lines@) == split(bytes@, NEWLINE),
            index@ == views(lines@).subrange(0, i as int).filter_map(line_reader()),
        decreases lines.len() - i,
    {
        proof {
            let upto = views(lines@).subrange(0, i + 1);
            assert(upto.drop_last() =~= views(lines@).subrange(0, i as int));
            assert(upto.last() == lines@[i as int]@);
        }
        match decode_entry(lines[i].as_slice()) {
            Some(entry) => {
                index.record(entry);
            },
            None => {},
        }
        i = i + 1;
        assert(index@ =~= views(lines@).subrange(0, i as int).filter_map(line_reader()));
    }
    assert(views(lines@).subrange(0, i as int) =~= views(lines@));
    index
}

} // verus!
