//! The index: an append-only log of entries, in which the latest entry of a
//! key is the one that counts.
use vstd::prelude::*;
use crate::bytes::{copy_bytes, same_text};
use crate::integrity::{Integrity, Sri};

verus! {

/// What an [`Entry`] stands for.
pub struct EntryView {
    pub key: Seq<char>,
    pub integrity: Sri,
    pub time: u128,
    pub size: u64,
    pub metadata: Seq<u8>,
}

/// One record of the index: it binds a key to the digest of the content
/// that was written under it.
#[derive(Debug, PartialEq, Eq)]
pub struct Entry {
    /// The key the content was written under.
    pub key: String,
    /// The digest of the content.
    pub integrity: Integrity,
    /// When the entry was made, in milliseconds since the Unix epoch.
    pub time: u128,
    /// The number of bytes of the content.
    pub size: u64,
    /// What the writer attached. The cache never looks inside.
    pub metadata: Vec<u8>,
}

impl View for Entry {
    type V = EntryView;

    open spec fn view(&self) -> EntryView {
        EntryView {
            key: self.key@,
            integrity: self.integrity@,
            time: self.time,
            size: self.size,
            metadata: self.metadata@,
        }
    }
}

impl Clone for Entry {
    fn clone(&self) -> (copy: Entry)
        ensures
            copy@ == self@,
    {
        Entry {
            key: self.key.clone(),
            integrity: self.integrity.clone(),
            time: self.time,
            size: self.size,
            metadata: copy_bytes(self.metadata.as_slice()),
        }
    }
}

/// The entry that `key` resolves to in `log`: the last one that was
/// recorded under it, if there is any.
pub open spec fn latest(log: Seq<EntryView>, key: Seq<char>) -> Option<EntryView>
    decreases log.len(),
{
    if log.len() == 0 {
        None
    } else if log.last().key == key {
        Some(log.last())
    } else {
        latest(log.drop_last(), key)
    }
}

/// Whether some entry of `log` was recorded under `key`.
pub open spec fn recorded(log: Seq<EntryView>, key: Seq<char>) -> bool {
    exists|i: int| 0 <= i < log.len() && (#[trigger] log[i]).key == key
}

/// A key resolves exactly when an entry was recorded under it, and then to
/// an entry of the log with that key.
pub proof fn lemma_latest_recorded(log: Seq<EntryView>, key: Seq<char>)
    ensures
        latest(log, key) is Some <==> recorded(log, key),
        latest(log, key) matches Some(entry) ==> entry.key == key && log.contains(entry),
    decreases log.len(),
{
    if log.len() > 0 {
        let last = log.len() - 1;
        lemma_latest_recorded(log.drop_last(), key);
        if log.last().key == key {
            assert(log[last].key == key);
        } else {
            if recorded(log, key) {
                let i = choose|i: int| 0 <= i < log.len() && (#[trigger] log[i]).key == key;
                assert(log.drop_last()[i].key == key);
            }
            if recorded(log.drop_last(), key) {
                let i = choose|i: int|
                    0 <= i < log.drop_last().len() && (#[trigger] log.drop_last()[i]).key == key;
                assert(log[i].key == key);
            }
            if latest(log, key) is Some {
                let entry = latest(log, key)->0;
                let i = choose|i: int| 0 <= i < log.drop_last().len() && log.drop_last()[i] == entry;
                assert(log[i] == entry);
            }
        }
    }
}

/// After an entry was appended, its key resolves to it, and every other key
/// resolves as before.
pub proof fn lemma_latest_push(log: Seq<EntryView>, entry: EntryView, key: Seq<char>)
    ensures
        latest(log.push(entry), key) == if entry.key == key {
            Some(entry)
        } else {
            latest(log, key)
        },
{
    assert(log.push(entry).drop_last() =~= log);
}

/// An index in several files: where the part of the log that is `kept` in
/// one file holds every entry of `key`, the key resolves in that part as it
/// does in the whole log.
pub proof fn law_latest_in_part(
    log: Seq<EntryView>,
    kept: spec_fn(EntryView) -> bool,
    key: Seq<char>,
)
    requires
        forall|entry: EntryView| entry.key == key ==> #[trigger] kept(entry),
    ensures
        latest(log.filter(kept), key) == latest(log, key),
    decreases log.len(),
{
    reveal(Seq::filter);
    if log.len() > 0 {
        law_latest_in_part(log.drop_last(), kept, key);
        if kept(log.last()) {
            lemma_latest_push(log.drop_last().filter(kept), log.last(), key);
        }
    }
}

/// The log of entries, oldest first.
pub struct Index {
    entries: Vec<Entry>,
}

impl View for Index {
    type V = Seq<EntryView>;

    /// The entries, oldest first.
    closed spec fn view(&self) -> Seq<EntryView> {
        self.entries@.map_values(|e: Entry| e@)
    }
}

impl Index {
    /// An index without entries.
    pub fn new() -> (index: Index)
        ensures
            index@ == Seq::<EntryView>::empty(),
    {
        let index = Index { entries: Vec::new() };
        assert(index@ =~= Seq::<EntryView>::empty());
        index
    }

    /// The number of entries that were recorded.
    pub fn len(&self) -> (n: usize)
        ensures
            n == self@.len(),
    {
        self.entries.len()
    }

    /// All the entries, oldest first.
    pub fn entries(&self) -> (all: Vec<Entry>)
        ensures
            all@.map_values(|e: Entry| e@) == self@,
    {
        let mut all: Vec<Entry> = Vec::new();
        let mut i: usize = 0;
        while i < self.entries.len()
            invariant
                i <= self.entries.len(),
                all@.len() == i,
                forall|j: int| 0 <= j < i ==> (#[trigger] all@[j])@ == self.entries@[j]@,
            decreases self.entries.len() - i,
        {
            all.push(self.entries[i].clone());
            i = i + 1;
        }
        assert(all@.map_values(|e: Entry| e@) =~= self@);
        all
    }

    /// The entry that `key` resolves to: the last one that was recorded
    /// under it. That no entry was recorded is no failure: the answer is
    /// then `None`.
    pub fn find(&self, key: &str) -> (found: Option<Entry>)
        ensures
            match found {
                Some(entry) => latest(self@, key@) == Some(entry@),
                None => latest(self@, key@) is None,
            },
    {
        let mut i: usize = self.entries.len();
        assert(self@.subrange(0, i as int) =~= self@);
        while i > 0
            invariant
                i <= self.entries.len(),
                latest(self@, key@) == latest(self@.subrange(0, i as int), key@),
            decreases i,
        {
            let ghost prefix = self@.subrange(0, i as int);
            i = i - 1;
            assert(prefix.last() == self.entries[i as int]@);
            assert(prefix.drop_last() =~= self@.subrange(0, i as int));
            if same_text(self.entries[i].key.as_str(), key) {
                return Some(self.entries[i].clone());
            }
        }
        None
    }

    /// Appends an entry that binds `key` to `integrity`, and gives it back.
    /// Whether the content store holds a blob under `integrity` is not
    /// looked at.
    pub fn insert(
        &mut self,
        key: &str,
        integrity: Integrity,
        time: u128,
        size: u64,
        metadata: Vec<u8>,
    ) -> (entry: Entry)
        ensures
            entry@ == (EntryView {
                key: key@,
                integrity: integrity@,
                time,
                size,
                metadata: metadata@,
            }),
            final(self)@ == old(self)@.push(entry@),
    {
        let entry = Entry { key: key.to_owned(), integrity, time, size, metadata };
        self.record(entry.clone());
        entry
    }

    /// Appends `entry` as it is. This is how entries found on disk enter
    /// the index.
    pub fn record(&mut self, entry: Entry)
        ensures
            final(self)@ == old(self)@.push(entry@),
    {
        self.entries.push(entry);
        assert(self@ =~= old(self)@.push(entry@));
    }
}

} // verus!
