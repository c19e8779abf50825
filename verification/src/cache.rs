//! A cache: an index and a content store.
use vstd::prelude::*;
use crate::content::ContentStore;
use crate::index::{EntryView, Index};
use crate::integrity::Sri;

verus! {

/// What a [`Cache`] stands for: the log of entries, oldest first, and the
/// bytes kept under each address.
pub struct CacheView {
    pub index: Seq<EntryView>,
    pub content: Map<Sri, Seq<u8>>,
}

/// The state of one cache: its index and its content store.
pub struct Cache {
    pub index: Index,
    pub content: ContentStore,
}

impl View for Cache {
    type V = CacheView;

    open spec fn view(&self) -> CacheView {
        CacheView { index: self.index@, content: self.content@ }
    }
}

impl Cache {
    /// A cache to which nothing has been written.
    pub fn new() -> (cache: Cache)
        ensures
            cache@.index == Seq::<EntryView>::empty(),
            cache@.content == Map::<Sri, Seq<u8>>::empty(),
    {
        Cache { index: Index::new(), content: ContentStore::new() }
    }
}

} // verus!
