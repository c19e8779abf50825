//! What holds of every cache, whatever was done to it.
use vstd::prelude::*;
use crate::algorithm::Algorithm;
use crate::cache::CacheView;
use crate::content::{address_of, copy_outcome, read_outcome, written};
use crate::errors::Error;
use crate::get::{copied_key, opened, opened_hash, read_key};
use crate::hasher::{digest_of, hashes_to};
use crate::index::{latest, lemma_latest_push, lemma_latest_recorded, recorded};
use crate::integrity::Sri;
use crate::put::{entry_of, put, stored_only};

verus! {

/// Whether `content` can take `data` under its own address: no blob is
/// kept there yet, or the blob kept there is `data`.
pub open spec fn accepts(content: Map<Sri, Seq<u8>>, algorithm: Algorithm, data: Seq<u8>) -> bool {
    content.dom().contains(address_of(algorithm, data)) ==> content[address_of(algorithm, data)]
        == data
}

/// The cache with the bytes under `sri` overwritten by `bytes`, behind the
/// back of the cache.
pub open spec fn tampered(cache: CacheView, sri: Sri, bytes: Seq<u8>) -> CacheView {
    CacheView { index: cache.index, content: cache.content.insert(sri, bytes) }
}

/// Round trip: reading a key gives back exactly the bytes that were last
/// written under it. A write leaves a blob that is already kept under the
/// address alone, so this asks that the address is free or holds these same
/// bytes.
pub proof fn law_put_then_read(
    cache: CacheView,
    key: Seq<char>,
    data: Seq<u8>,
    algorithm: Algorithm,
    time: u128,
    metadata: Seq<u8>,
)
    requires
        accepts(cache.content, algorithm, data),
    ensures
        read_key(put(cache, key, data, algorithm, time, metadata), key) == Ok::<Seq<u8>, Error>(
            data,
        ),
        read_outcome(
            put(cache, key, data, algorithm, time, metadata).content,
            address_of(algorithm, data),
        ) == Ok::<Seq<u8>, Error>(data),
        latest(put(cache, key, data, algorithm, time, metadata).index, key) == Some(
            entry_of(key, data, algorithm, time, metadata),
        ),
{
    lemma_latest_push(cache.index, entry_of(key, data, algorithm, time, metadata), key);
}

/// A write under one key leaves what can be read under another key
/// readable, and the same.
pub proof fn law_put_keeps_other_keys(
    cache: CacheView,
    key: Seq<char>,
    data: Seq<u8>,
    algorithm: Algorithm,
    time: u128,
    metadata: Seq<u8>,
    other: Seq<char>,
)
    requires
        other != key,
        read_key(cache, other) is Ok,
    ensures
        read_key(put(cache, key, data, algorithm, time, metadata), other) == read_key(
            cache,
            other,
        ),
{
    lemma_latest_push(cache.index, entry_of(key, data, algorithm, time, metadata), other);
}

/// Content is stored once: writing the same bytes under a second key adds
/// no blob, the two writes together add at most the one blob under the
/// digest of the bytes, and both keys resolve to that digest.
pub proof fn law_same_content_stored_once(
    cache: CacheView,
    first: Seq<char>,
    second: Seq<char>,
    data: Seq<u8>,
    algorithm: Algorithm,
    first_time: u128,
    first_metadata: Seq<u8>,
    second_time: u128,
    second_metadata: Seq<u8>,
)
    ensures
        ({
            let once = put(cache, first, data, algorithm, first_time, first_metadata);
            let twice = put(once, second, data, algorithm, second_time, second_metadata);
            &&& twice.content == once.content
            &&& twice.content.dom() == cache.content.dom().insert(address_of(algorithm, data))
            &&& latest(twice.index, first) is Some
            &&& latest(twice.index, second) is Some
            &&& latest(twice.index, first)->0.integrity == address_of(algorithm, data)
            &&& latest(twice.index, second)->0.integrity == address_of(algorithm, data)
        }),
{
    let entry = entry_of(first, data, algorithm, first_time, first_metadata);
    let again = entry_of(second, data, algorithm, second_time, second_metadata);
    let once = put(cache, first, data, algorithm, first_time, first_metadata);
    let twice = put(once, second, data, algorithm, second_time, second_metadata);
    lemma_latest_push(cache.index, entry, first);
    lemma_latest_push(once.index, again, first);
    lemma_latest_push(once.index, again, second);
    assert(twice.content.dom() =~= cache.content.dom().insert(address_of(algorithm, data)));
}

/// From an empty content store, the same bytes written under two keys
/// leave exactly one blob.
pub proof fn law_one_blob_for_two_keys(
    cache: CacheView,
    first: Seq<char>,
    second: Seq<char>,
    data: Seq<u8>,
    algorithm: Algorithm,
    first_time: u128,
    first_metadata: Seq<u8>,
    second_time: u128,
    second_metadata: Seq<u8>,
)
    requires
        cache.content == Map::<Sri, Seq<u8>>::empty(),
    ensures
        ({
            let once = put(cache, first, data, algorithm, first_time, first_metadata);
            let twice = put(once, second, data, algorithm, second_time, second_metadata);
            &&& twice.content.dom().finite()
            &&& twice.content.dom().len() == 1
            &&& twice.content[address_of(algorithm, data)] == data
        }),
{
    let once = put(cache, first, data, algorithm, first_time, first_metadata);
    let twice = put(once, second, data, algorithm, second_time, second_metadata);
    assert(twice.content.dom() =~= set![address_of(algorithm, data)]);
}

/// Whatever a read hands back hashes to the digest it was read under.
pub proof fn law_read_is_verified(content: Map<Sri, Seq<u8>>, sri: Sri)
    ensures
        read_outcome(content, sri) matches Ok(data) ==> hashes_to(sri, data) && content[sri]
            == data,
{
}

/// Verified read: once the bytes under a digest have been overwritten with
/// bytes that do not hash to it, reading by that digest, and by any key
/// that resolves to it, fails with `IntegrityMismatch`.
pub proof fn law_corruption_is_detected(
    cache: CacheView,
    key: Seq<char>,
    sri: Sri,
    corrupted: Seq<u8>,
)
    requires
        !hashes_to(sri, corrupted),
    ensures
        read_outcome(tampered(cache, sri, corrupted).content, sri) == Err::<Seq<u8>, Error>(
            Error::IntegrityMismatch,
        ),
        copy_outcome(tampered(cache, sri, corrupted).content, sri) == Err::<u64, Error>(
            Error::IntegrityMismatch,
        ),
        latest(cache.index, key) matches Some(entry) && entry.integrity == sri ==> read_key(
            tampered(cache, sri, corrupted),
            key,
        ) == Err::<Seq<u8>, Error>(Error::IntegrityMismatch) && copied_key(
            tampered(cache, sri, corrupted),
            key,
        ) == Err::<u64, Error>(Error::IntegrityMismatch),
{
}

/// Verified read, after a write: once the blob of a write has been
/// overwritten with bytes of another digest, reading the key and reading
/// the digest fail with `IntegrityMismatch`, whatever the cache held before.
pub proof fn law_corruption_after_put(
    cache: CacheView,
    key: Seq<char>,
    data: Seq<u8>,
    algorithm: Algorithm,
    time: u128,
    metadata: Seq<u8>,
    corrupted: Seq<u8>,
)
    requires
        digest_of(algorithm, corrupted) != digest_of(algorithm, data),
    ensures
        ({
            let sri = address_of(algorithm, data);
            let after = tampered(put(cache, key, data, algorithm, time, metadata), sri, corrupted);
            &&& read_key(after, key) == Err::<Seq<u8>, Error>(Error::IntegrityMismatch)
            &&& read_outcome(after.content, sri) == Err::<Seq<u8>, Error>(
                Error::IntegrityMismatch,
            )
        }),
{
    lemma_latest_push(cache.index, entry_of(key, data, algorithm, time, metadata), key);
}

/// Absence of a key: a key under which nothing was recorded does not
/// resolve, and reading, opening and copying it give `NotFound`.
pub proof fn law_absent_key(cache: CacheView, key: Seq<char>)
    requires
        !recorded(cache.index, key),
    ensures
        latest(cache.index, key) is None,
        read_key(cache, key) == Err::<Seq<u8>, Error>(Error::NotFound),
        opened(cache, key) == Err::<(Sri, Seq<u8>), Error>(Error::NotFound),
        copied_key(cache, key) == Err::<u64, Error>(Error::NotFound),
{
    lemma_latest_recorded(cache.index, key);
}

/// Absence of a digest: where no blob is kept under a digest, reading,
/// opening and copying by it give `NotFound`.
pub proof fn law_absent_digest(cache: CacheView, sri: Sri)
    requires
        !cache.content.dom().contains(sri),
    ensures
        read_outcome(cache.content, sri) == Err::<Seq<u8>, Error>(Error::NotFound),
        opened_hash(cache, sri) == Err::<(Sri, Seq<u8>), Error>(Error::NotFound),
        copy_outcome(cache.content, sri) == Err::<u64, Error>(Error::NotFound),
{
}

/// What a write makes present: under the key written, and under no other
/// key, an entry more is recorded; under the digest of the bytes, and under
/// no other digest, a blob may have been added.
pub proof fn law_put_adds_one_key_one_blob(
    cache: CacheView,
    key: Seq<char>,
    data: Seq<u8>,
    algorithm: Algorithm,
    time: u128,
    metadata: Seq<u8>,
    other_key: Seq<char>,
    other_sri: Sri,
)
    ensures
        recorded(put(cache, key, data, algorithm, time, metadata).index, other_key) <==> (other_key
            == key || recorded(cache.index, other_key)),
        put(cache, key, data, algorithm, time, metadata).content.dom().contains(other_sri) <==> (
        other_sri == address_of(algorithm, data) || cache.content.dom().contains(other_sri)),
{
    let entry = entry_of(key, data, algorithm, time, metadata);
    let after = put(cache, key, data, algorithm, time, metadata);
    lemma_latest_push(cache.index, entry, other_key);
    lemma_latest_recorded(cache.index, other_key);
    lemma_latest_recorded(after.index, other_key);
}

/// Crash ordering: a write that stops after the content store and before
/// the index leaves every key resolving as before, so a key that was never
/// written still does not resolve, though the blob is already there. The
/// same write done again, whole, adds no blob and makes the key read back
/// the bytes.
pub proof fn law_interrupted_put(
    cache: CacheView,
    key: Seq<char>,
    data: Seq<u8>,
    algorithm: Algorithm,
    time: u128,
    metadata: Seq<u8>,
)
    requires
        accepts(cache.content, algorithm, data),
    ensures
        ({
            let half = stored_only(cache, data, algorithm);
            let whole = put(half, key, data, algorithm, time, metadata);
            &&& latest(half.index, key) == latest(cache.index, key)
            &&& !recorded(cache.index, key) ==> read_key(half, key) == Err::<Seq<u8>, Error>(
                Error::NotFound,
            )
            &&& half.content.dom().contains(address_of(algorithm, data))
            &&& read_outcome(half.content, address_of(algorithm, data)) == Ok::<Seq<u8>, Error>(
                data,
            )
            &&& whole.content == half.content
            &&& whole == put(cache, key, data, algorithm, time, metadata)
            &&& read_key(whole, key) == Ok::<Seq<u8>, Error>(data)
        }),
{
    let half = stored_only(cache, data, algorithm);
    lemma_latest_recorded(cache.index, key);
    law_put_then_read(half, key, data, algorithm, time, metadata);
}

/// Whether every entry of the index names a blob that the content store
/// keeps.
pub open spec fn grounded(cache: CacheView) -> bool {
    forall|i: int|
        0 <= i < cache.index.len() ==> cache.content.dom().contains(
            (#[trigger] cache.index[i]).integrity,
        )
}

/// Content before index: a write, whole or stopped halfway, never leaves an
/// entry without its blob. So in a cache that only ever was written to,
/// every entry names a blob that is there.
pub proof fn law_entries_follow_blobs(
    cache: CacheView,
    key: Seq<char>,
    data: Seq<u8>,
    algorithm: Algorithm,
    time: u128,
    metadata: Seq<u8>,
)
    requires
        grounded(cache),
    ensures
        grounded(stored_only(cache, data, algorithm)),
        grounded(put(cache, key, data, algorithm, time, metadata)),
{
    let half = stored_only(cache, data, algorithm);
    let whole = put(cache, key, data, algorithm, time, metadata);
    assert forall|i: int| 0 <= i < half.index.len() implies half.content.dom().contains(
        (#[trigger] half.index[i]).integrity,
    ) by {
        assert(cache.content.dom().contains(cache.index[i].integrity));
    }
    assert forall|i: int| 0 <= i < whole.index.len() implies whole.content.dom().contains(
        (#[trigger] whole.index[i]).integrity,
    ) by {
        if i < cache.index.len() {
            assert(cache.content.dom().contains(cache.index[i].integrity));
        }
    }
}

/// Where every entry names a blob that is there, every key that resolves
/// can be opened.
pub proof fn law_grounded_keys_open(cache: CacheView, key: Seq<char>)
    requires
        grounded(cache),
        latest(cache.index, key) is Some,
    ensures
        opened(cache, key) is Ok,
        read_key(cache, key) != Err::<Seq<u8>, Error>(Error::NotFound),
{
    lemma_latest_recorded(cache.index, key);
    let entry = latest(cache.index, key)->0;
    let i = choose|i: int| 0 <= i < cache.index.len() && cache.index[i] == entry;
    assert(cache.content.dom().contains(cache.index[i].integrity));
}

/// An entry may outlive its blob: once the blob that a key resolves to has
/// been taken away, the key still resolves, and reading it gives
/// `NotFound`.
pub proof fn law_entry_outlives_blob(cache: CacheView, key: Seq<char>)
    requires
        latest(cache.index, key) is Some,
    ensures
        ({
            let sri = latest(cache.index, key)->0.integrity;
            let after = CacheView { index: cache.index, content: cache.content.remove(sri) };
            &&& latest(after.index, key) == latest(cache.index, key)
            &&& read_key(after, key) == Err::<Seq<u8>, Error>(Error::NotFound)
            &&& opened(after, key) == Err::<(Sri, Seq<u8>), Error>(Error::NotFound)
        }),
{
}

/// Writing the same bytes again changes nothing in the content store.
pub proof fn law_write_is_idempotent(
    content: Map<Sri, Seq<u8>>,
    algorithm: Algorithm,
    data: Seq<u8>,
)
    ensures
        written(written(content, algorithm, data), algorithm, data) == written(
            content,
            algorithm,
            data,
        ),
{
}

/// Writes of blobs with different addresses can be done in either order.
pub proof fn law_writes_commute(
    content: Map<Sri, Seq<u8>>,
    algorithm: Algorithm,
    data: Seq<u8>,
    other_algorithm: Algorithm,
    other_data: Seq<u8>,
)
    requires
        address_of(algorithm, data) != address_of(other_algorithm, other_data),
    ensures
        written(written(content, algorithm, data), other_algorithm, other_data) == written(
            written(content, other_algorithm, other_data),
            algorithm,
            data,
        ),
{
    assert(written(written(content, algorithm, data), other_algorithm, other_data) =~= written(
        written(content, other_algorithm, other_data),
        algorithm,
        data,
    ));
}

} // verus!
