//! The content store: blobs kept under the digest of their bytes.
//!
//! A blob is found by its address alone. That the bytes under an address
//! still hash to it is never assumed: every read hashes them again.
use vstd::prelude::*;
use crate::algorithm::Algorithm;
use crate::errors::Error;
use crate::bytes::copy_bytes;
use crate::hasher::{compute, digest_of, hashes_to};
use crate::integrity::{Integrity, Sri};
use crate::reader::Reader;

verus! {

/// One stored blob: the address it is kept under, and its bytes.
struct Blob {
    address: Integrity,
    data: Vec<u8>,
}

/// Blobs by address. An address is an integrity value; a blob written
/// through [`ContentStore::write`] is kept under the digest of its bytes.
pub struct ContentStore {
    blobs: Vec<Blob>,
}

/// What the blobs, in the order they were added, make of the store: a later
/// blob under an address stands in place of an earlier one.
spec fn stored(blobs: Seq<Blob>) -> Map<Sri, Seq<u8>>
    decreases blobs.len(),
{
    if blobs.len() == 0 {
        Map::empty()
    } else {
        stored(blobs.drop_last()).insert(blobs.last().address@, blobs.last().data@)
    }
}

/// An address that no blob stands under is not in the store.
proof fn lemma_stored_absent(blobs: Seq<Blob>, address: Sri)
    requires
        forall|j: int| 0 <= j < blobs.len() ==> (#[trigger] blobs[j]).address@ != address,
    ensures
        !stored(blobs).dom().contains(address),
    decreases blobs.len(),
{
    if blobs.len() > 0 {
        lemma_stored_absent(blobs.drop_last(), address);
        assert(blobs.last() == blobs[blobs.len() - 1]);
    }
}

/// The last blob that stands under an address is the one the store keeps
/// there.
proof fn lemma_stored_present(blobs: Seq<Blob>, at: int, address: Sri)
    requires
        0 <= at < blobs.len(),
        blobs[at].address@ == address,
        forall|j: int| at < j < blobs.len() ==> (#[trigger] blobs[j]).address@ != address,
    ensures
        stored(blobs).dom().contains(address),
        stored(blobs)[address] == blobs[at].data@,
    decreases blobs.len(),
{
    if at < blobs.len() - 1 {
        assert(blobs.last() == blobs[blobs.len() - 1]);
        lemma_stored_present(blobs.drop_last(), at, address);
    }
}

/// The last place at which a blob under `address` stands, where there is
/// one.
proof fn lemma_last_occurrence(blobs: Seq<Blob>, address: Sri) -> (at: int)
    requires
        exists|j: int| 0 <= j < blobs.len() && (#[trigger] blobs[j]).address@ == address,
    ensures
        0 <= at < blobs.len(),
        blobs[at].address@ == address,
        forall|j: int| at < j < blobs.len() ==> (#[trigger] blobs[j]).address@ != address,
        stored(blobs).dom().contains(address),
    decreases blobs.len(),
{
    let last = blobs.len() - 1;
    if blobs[last].address@ == address {
        lemma_stored_present(blobs, last, address);
        last
    } else {
        let j = choose|j: int| 0 <= j < blobs.len() && (#[trigger] blobs[j]).address@ == address;
        assert(blobs.drop_last()[j].address@ == address);
        let at = lemma_last_occurrence(blobs.drop_last(), address);
        assert forall|m: int| at < m < blobs.len() implies (#[trigger] blobs[m]).address@
            != address by {
            if m < last {
                assert(blobs.drop_last()[m] == blobs[m]);
            }
        }
        lemma_stored_present(blobs, at, address);
        at
    }
}

/// Whether no later blob stands under the address of the blob at `at`.
spec fn shadows_none(blobs: Seq<Blob>, at: int) -> bool {
    forall|m: int| at < m < blobs.len() ==> (#[trigger] blobs[m]).address@ != blobs[at].address@
}

/// Whether `sri` is among `all`.
pub open spec fn listed(all: Seq<Integrity>, sri: Sri) -> bool {
    exists|k: int| 0 <= k < all.len() && (#[trigger] all[k])@ == sri
}

/// Whether `all` holds the addresses of the blobs at the places `picked`,
/// and these are the places below `upto` whose blob no later blob stands in
/// place of, in rising order.
spec fn picks(blobs: Seq<Blob>, all: Seq<Integrity>, picked: Seq<int>, upto: int) -> bool {
    &&& picked.len() == all.len()
    &&& forall|k: int|
        0 <= k < picked.len() ==> {
            &&& 0 <= #[trigger] picked[k] < upto
            &&& all[k]@ == blobs[picked[k]].address@
            &&& shadows_none(blobs, picked[k])
        }
    &&& forall|k: int, l: int|
        0 <= k < l < picked.len() ==> #[trigger] picked[k] < #[trigger] picked[l]
    &&& forall|j: int| 0 <= j < upto && shadows_none(blobs, j) ==> #[trigger] picked.contains(j)
}

/// A blob of the sequence is kept in the store it makes.
proof fn lemma_stored_present_somewhere(blobs: Seq<Blob>, at: int)
    requires
        0 <= at < blobs.len(),
    ensures
        stored(blobs).dom().contains(blobs[at].address@),
{
    let last = lemma_last_occurrence(blobs, blobs[at].address@);
}

/// What was picked from all the places is what the store keeps, each
/// address once.
proof fn lemma_picks_all(blobs: Seq<Blob>, all: Seq<Integrity>, picked: Seq<int>)
    requires
        picks(blobs, all, picked, blobs.len() as int),
    ensures
        forall|sri: Sri| stored(blobs).dom().contains(sri) <==> listed(all, sri),
        forall|k: int, l: int| 0 <= k < l < all.len() ==> all[k]@ != all[l]@,
{
    assert forall|sri: Sri| stored(blobs).dom().contains(sri) implies listed(all, sri) by {
        if forall|j: int| 0 <= j < blobs.len() ==> (#[trigger] blobs[j]).address@ != sri {
            lemma_stored_absent(blobs, sri);
        } else {
            let j = lemma_last_occurrence(blobs, sri);
            assert(shadows_none(blobs, j));
            assert(picked.contains(j));
            let k = choose|k: int| 0 <= k < picked.len() && picked[k] == j;
            assert(all[k]@ == sri);
        }
    }
    assert forall|sri: Sri| listed(all, sri) implies stored(blobs).dom().contains(sri) by {
        let k = choose|k: int| 0 <= k < all.len() && (#[trigger] all[k])@ == sri;
        assert(shadows_none(blobs, picked[k]));
        lemma_stored_present(blobs, picked[k], sri);
    }
    assert forall|k: int, l: int| 0 <= k < l < all.len() implies all[k]@ != all[l]@ by {
        assert(picked[k] < picked[l]);
        assert(shadows_none(blobs, picked[k]));
        assert(blobs[picked[l]].address@ != blobs[picked[k]].address@);
    }
}

/// Putting a blob in the place of the last blob under its address puts its
/// bytes under that address, and changes nothing else.
proof fn lemma_stored_replaced(blobs: Seq<Blob>, at: int, blob: Blob)
    requires
        0 <= at < blobs.len(),
        blobs[at].address@ == blob.address@,
        forall|j: int| at < j < blobs.len() ==> (#[trigger] blobs[j]).address@ != blob.address@,
    ensures
        stored(blobs.update(at, blob)) == stored(blobs).insert(blob.address@, blob.data@),
    decreases blobs.len(),
{
    let after = blobs.update(at, blob);
    if at == blobs.len() - 1 {
        assert(after.drop_last() =~= blobs.drop_last());
        assert(stored(after) =~= stored(blobs).insert(blob.address@, blob.data@));
    } else {
        assert(blobs.last() == blobs[blobs.len() - 1]);
        assert(after.drop_last() =~= blobs.drop_last().update(at, blob));
        lemma_stored_replaced(blobs.drop_last(), at, blob);
        assert(stored(after) =~= stored(blobs).insert(blob.address@, blob.data@));
    }
}

/// Taking a blob out of the sequence changes nothing under the other
/// addresses.
proof fn lemma_stored_without(blobs: Seq<Blob>, at: int)
    requires
        0 <= at < blobs.len(),
    ensures
        stored(blobs.remove(at)).remove(blobs[at].address@) == stored(blobs).remove(
            blobs[at].address@,
        ),
    decreases blobs.len(),
{
    let address = blobs[at].address@;
    let after = blobs.remove(at);
    if at == blobs.len() - 1 {
        assert(after =~= blobs.drop_last());
        assert(stored(after).remove(address) =~= stored(blobs).remove(address));
    } else {
        assert(blobs.last() == blobs[blobs.len() - 1]);
        assert(after.last() == blobs.last());
        assert(after.drop_last() =~= blobs.drop_last().remove(at));
        assert(blobs.drop_last()[at] == blobs[at]);
        lemma_stored_without(blobs.drop_last(), at);
        let front = stored(blobs.drop_last());
        let front_after = stored(after.drop_last());
        assert(front_after.remove(address) == front.remove(address));
        assert(stored(after) == front_after.insert(after.last().address@, after.last().data@));
        assert(stored(blobs) == front.insert(blobs.last().address@, blobs.last().data@));
        assert forall|a: Sri| a != address implies #[trigger] front_after.dom().contains(a)
            == front.dom().contains(a) && (front.dom().contains(a) ==> front_after[a]
            == front[a]) by {
            assert(front_after.remove(address).dom().contains(a) == front.remove(
                address,
            ).dom().contains(a));
            assert(front_after.remove(address)[a] == front.remove(address)[a]);
        }
        assert(stored(after).remove(address) =~= stored(blobs).remove(address));
    }
}

impl View for ContentStore {
    type V = Map<Sri, Seq<u8>>;

    /// The bytes kept under each address.
    closed spec fn view(&self) -> Map<Sri, Seq<u8>> {
        stored(self.blobs@)
    }
}

/// What reading the blob under `sri` from `store` answers: its bytes where
/// they hash to `sri`, `IntegrityMismatch` where they do not, `NotFound`
/// where there is no blob.
pub open spec fn read_outcome(store: Map<Sri, Seq<u8>>, sri: Sri) -> Result<Seq<u8>, Error> {
    if !store.dom().contains(sri) {
        Err(Error::NotFound)
    } else if hashes_to(sri, store[sri]) {
        Ok(store[sri])
    } else {
        Err(Error::IntegrityMismatch)
    }
}

/// What copying the blob under `sri` from `store` answers: the number of
/// bytes copied where they hash to `sri`, `IntegrityMismatch` where they do
/// not, `NotFound` where there is no blob.
pub open spec fn copy_outcome(store: Map<Sri, Seq<u8>>, sri: Sri) -> Result<u64, Error> {
    match read_outcome(store, sri) {
        Ok(data) => Ok(data.len() as u64),
        Err(e) => Err(e),
    }
}

/// The address that `data` is kept under when it is written with
/// `algorithm`.
pub open spec fn address_of(algorithm: Algorithm, data: Seq<u8>) -> Sri {
    Sri { algorithm, digest: digest_of(algorithm, data) }
}

/// The store after `data` was written with `algorithm`: a blob that is
/// already there stays as it is.
pub open spec fn written(store: Map<Sri, Seq<u8>>, algorithm: Algorithm, data: Seq<u8>) -> Map<
    Sri,
    Seq<u8>,
> {
    committed(store, address_of(algorithm, data), data)
}

/// The store after `data` was committed under `address`: a blob that is
/// already there stays as it is.
pub open spec fn committed(store: Map<Sri, Seq<u8>>, address: Sri, data: Seq<u8>) -> Map<
    Sri,
    Seq<u8>,
> {
    if store.dom().contains(address) {
        store
    } else {
        store.insert(address, data)
    }
}

impl ContentStore {
    /// A store without blobs.
    pub fn new() -> (store: ContentStore)
        ensures
            store@ == Map::<Sri, Seq<u8>>::empty(),
    {
        ContentStore { blobs: Vec::new() }
    }

    /// Where the blob under `sri` stands.
    fn position(&self, sri: &Integrity) -> (at: Option<usize>)
        ensures
            match at {
                Some(i) => {
                    &&& i < self.blobs.len()
                    &&& self.blobs[i as int].address@ == sri@
                    &&& self@.dom().contains(sri@)
                    &&& self@[sri@] == self.blobs[i as int].data@
                    &&& forall|j: int|
                        i < j < self.blobs.len() ==> (#[trigger] self.blobs[j]).address@ != sri@
                },
                None => !self@.dom().contains(sri@),
            },
    {
        let mut i: usize = self.blobs.len();
        while i > 0
            invariant
                i <= self.blobs.len(),
                forall|j: int|
                    i <= j < self.blobs.len() ==> (#[trigger] self.blobs[j]).address@ != sri@,
            decreases i,
        {
            i = i - 1;
            if self.blobs[i].address.same(sri) {
                proof {
                    lemma_stored_present(self.blobs@, i as int, sri@);
                }
                return Some(i);
            }
        }
        proof {
            lemma_stored_absent(self.blobs@, sri@);
        }
        None
    }

    /// Whether a blob is kept under `sri`. The bytes are not looked at.
    pub fn has(&self, sri: &Integrity) -> (present: bool)
        ensures
            present == self@.dom().contains(sri@),
    {
        self.position(sri).is_some()
    }

    /// The addresses under which a blob is kept, each once, in no promised
    /// order.
    pub fn addresses(&self) -> (all: Vec<Integrity>)
        ensures
            forall|sri: Sri| self@.dom().contains(sri) <==> listed(all@, sri),
            forall|k: int, l: int| 0 <= k < l < all@.len() ==> all@[k]@ != all@[l]@,
    {
        let mut all: Vec<Integrity> = Vec::new();
        let ghost mut picked: Seq<int> = Seq::empty();
        let mut i: usize = 0;
        while i < self.blobs.len()
            invariant
                i <= self.blobs.len(),
                picks(self.blobs@, all@, picked, i as int),
            decreases self.blobs.len() - i,
        {
            let ghost before = picked;
            match self.position(&self.blobs[i].address) {
                Some(at) => {
                    if at == i {
                        all.push(self.blobs[i].address.clone());
                        proof {
                            picked = picked.push(i as int);
                            assert(shadows_none(self.blobs@, i as int));
                            assert forall|j: int|
                                0 <= j < i + 1 && shadows_none(
                                    self.blobs@,
                                    j,
                                ) implies picked.contains(j) by {
                                if j < i {
                                    assert(before.contains(j));
                                    let k = choose|k: int| 0 <= k < before.len() && before[k] == j;
                                    assert(picked[k] == j);
                                } else {
                                    assert(picked[picked.len() - 1] == j);
                                }
                            }
                        }
                    } else {
                        assert(!shadows_none(self.blobs@, i as int)) by {
                            assert(self.blobs@[at as int].address@ == self.blobs@[i as int].address@);
                        }
                    }
                },
                None => {
                    proof {
                        lemma_stored_present_somewhere(self.blobs@, i as int);
                    }
                },
            }
            i = i + 1;
        }
        proof {
            lemma_picks_all(self.blobs@, all@, picked);
        }
        all
    }

    /// Opens the blob under `sri` for reading in chunks. The reader stands
    /// at the start of the blob's bytes and holds them against `sri`.
    /// `NotFound` where there is no blob.
    pub fn open(&self, sri: Integrity) -> (reader: Result<Reader, Error>)
        ensures
            match reader {
                Ok(reader) => {
                    &&& self@.dom().contains(sri@)
                    &&& reader.wf()
                    &&& reader.source() == self@[sri@]
                    &&& reader.position() == 0
                    &&& reader.expected() == sri@
                },
                Err(e) => !self@.dom().contains(sri@) && e == Error::NotFound,
            },
    {
        match self.position(&sri) {
            Some(i) => Ok(Reader::new(copy_bytes(self.blobs[i].data.as_slice()), sri)),
            None => Err(Error::NotFound),
        }
    }

    /// Reads the whole blob under `sri`: opens it, reads it to its end and
    /// checks it. Gives the bytes where they hash to `sri`,
    /// `IntegrityMismatch` where they do not, `NotFound` where there is no
    /// blob.
    pub fn read(&self, sri: &Integrity) -> (data: Result<Vec<u8>, Error>)
        ensures
            match data {
                Ok(data) => read_outcome(self@, sri@) == Ok::<Seq<u8>, Error>(data@),
                Err(e) => read_outcome(self@, sri@) == Err::<Seq<u8>, Error>(e),
            },
    {
        match self.open(sri.clone()) {
            Ok(reader) => {
                assert(reader.source().skip(0) =~= reader.source());
                reader.read_to_end()
            },
            Err(e) => Err(e),
        }
    }

    /// Copies the blob under `sri` to `to`, whose former bytes are lost:
    /// opens it, reads it to its end into `to` and checks it. Gives the
    /// number of bytes where they hash to `sri`. Where they do not,
    /// `IntegrityMismatch`, and `to` holds the bytes that failed. `NotFound`
    /// where there is no blob: `to` is then left as it was.
    pub fn copy(&self, sri: &Integrity, to: &mut Vec<u8>) -> (copied: Result<u64, Error>)
        ensures
            copied == copy_outcome(self@, sri@),
            final(to)@ == if self@.dom().contains(sri@) {
                self@[sri@]
            } else {
                old(to)@
            },
    {
        match self.open(sri.clone()) {
            Ok(reader) => {
                let mut reader = reader;
                to.clear();
                reader.drain(to);
                assert(to@ =~= reader.source()) by {
                    assert(reader.source().skip(0) =~= reader.source());
                }
                assert(reader.consumed() =~= reader.source());
                match reader.check() {
                    Ok(_) => Ok(to.len() as u64),
                    Err(e) => Err(e),
                }
            },
            Err(e) => Err(e),
        }
    }

    /// Commits `data` under `address`, the digest that was computed while
    /// `data` came in. A blob that is already kept under `address` stays as
    /// it is.
    pub fn commit(&mut self, address: Integrity, data: Vec<u8>)
        ensures
            final(self)@ == committed(old(self)@, address@, data@),
    {
        if self.position(&address).is_none() {
            let ghost before = self.blobs@;
            self.blobs.push(Blob { address, data });
            assert(self.blobs@.drop_last() =~= before);
        }
    }

    /// Writes `data` with `algorithm`: hashes it, and keeps it under its
    /// digest unless a blob is kept there already. Gives the digest back.
    pub fn write(&mut self, algorithm: Algorithm, data: &[u8]) -> (sri: Integrity)
        ensures
            sri@ == address_of(algorithm, data@),
            final(self)@ == written(old(self)@, algorithm, data@),
    {
        let sri = compute(algorithm, data);
        self.commit(sri.clone(), copy_bytes(data));
        sri
    }

    /// Takes away the blob under `sri`, if there is one, and says whether
    /// there was. The cache itself never does this; it is for whoever clears
    /// the store of blobs that are no longer wanted.
    pub fn remove(&mut self, sri: &Integrity) -> (removed: bool)
        ensures
            removed == old(self)@.dom().contains(sri@),
            final(self)@ == old(self)@.remove(sri@),
    {
        let mut removed = false;
        let mut i: usize = self.blobs.len();
        proof {
            if !old(self)@.dom().contains(sri@) {
                assert(old(self)@.remove(sri@) =~= old(self)@);
            }
        }
        while i > 0
            invariant
                i <= self.blobs.len(),
                self@.remove(sri@) == old(self)@.remove(sri@),
                removed ==> old(self)@.dom().contains(sri@),
                !removed ==> self.blobs@ == old(self).blobs@,
                forall|j: int|
                    i <= j < self.blobs.len() ==> (#[trigger] self.blobs[j]).address@ != sri@,
            decreases i,
        {
            i = i - 1;
            if self.blobs[i].address.same(sri) {
                proof {
                    lemma_stored_without(self.blobs@, i as int);
                    if !removed {
                        lemma_stored_present_somewhere(self.blobs@, i as int);
                    }
                }
                let ghost before = self.blobs@;
                self.blobs.remove(i);
                assert(self.blobs@ =~= before.remove(i as int));
                removed = true;
            }
        }
        proof {
            lemma_stored_absent(self.blobs@, sri@);
            assert(self@.remove(sri@) =~= self@);
        }
        removed
    }

    /// Puts `data` under `address` as it is, without hashing it, in place of
    /// what was kept there. This is how bytes found on disk enter the
    /// store: whether they still hash to their address shows when they are
    /// read.
    pub fn restore(&mut self, address: Integrity, data: Vec<u8>)
        ensures
            final(self)@ == old(self)@.insert(address@, data@),
    {
        match self.position(&address) {
            Some(i) => {
                let blob = Blob { address, data };
                proof {
                    lemma_stored_replaced(self.blobs@, i as int, blob);
                }
                self.blobs.set(i, blob);
            },
            None => {
                let ghost before = self.blobs@;
                self.blobs.push(Blob { address, data });
                assert(self.blobs@.drop_last() =~= before);
            },
        }
    }
}

} // verus!
