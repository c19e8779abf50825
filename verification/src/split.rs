//! Sequences cut at a separator, and put together again.
use vstd::prelude::*;

verus! {

/// The parts of `items` between the separators `sep`, in order. There is
/// always one part more than there are separators; a part may be empty.
pub open spec fn split<T>(items: Seq<T>, sep: T) -> Seq<Seq<T>>
    decreases items.len(),
{
    if items.len() == 0 {
        seq![Seq::empty()]
    } else {
        let parts = split(items.drop_last(), sep);
        if items.last() == sep {
            parts.push(Seq::empty())
        } else {
            parts.drop_last().push(parts.last().push(items.last()))
        }
    }
}

/// The parts with `sep` between each two.
pub open spec fn join<T>(parts: Seq<Seq<T>>, sep: T) -> Seq<T>
    decreases parts.len(),
{
    if parts.len() == 0 {
        Seq::empty()
    } else if parts.len() == 1 {
        parts[0]
    } else {
        join(parts.drop_last(), sep) + seq![sep] + parts.last()
    }
}

/// Whether `item` does not occur in `items`.
pub open spec fn free_of<T>(items: Seq<T>, item: T) -> bool {
    forall|i: int| 0 <= i < items.len() ==> #[trigger] items[i] != item
}

/// Whether `item` occurs in none of the parts.
pub open spec fn all_free_of<T>(parts: Seq<Seq<T>>, item: T) -> bool {
    forall|i: int| 0 <= i < parts.len() ==> free_of(#[trigger] parts[i], item)
}

/// What comes behind a separator, and holds none itself, is one part more.
pub proof fn lemma_split_append<T>(items: Seq<T>, sep: T, part: Seq<T>)
    requires
        free_of(part, sep),
    ensures
        split(items + seq![sep] + part, sep) == split(items, sep).push(part),
    decreases part.len(),
{
    let whole = items + seq![sep] + part;
    if part.len() == 0 {
        assert(whole.drop_last() =~= items);
        assert(whole.last() == sep);
        assert(part =~= Seq::<T>::empty());
    } else {
        let shorter = part.drop_last();
        assert(whole.drop_last() =~= items + seq![sep] + shorter);
        assert(whole.last() == part.last());
        assert(part[part.len() - 1] != sep);
        assert forall|i: int| 0 <= i < shorter.len() implies #[trigger] shorter[i] != sep by {
            assert(shorter[i] == part[i]);
        }
        lemma_split_append(items, sep, shorter);
        let parts = split(items, sep).push(shorter);
        assert(parts.drop_last() =~= split(items, sep));
        assert(parts.last().push(part.last()) =~= part);
    }
}

/// A sequence without a separator is its own single part.
pub proof fn lemma_split_whole<T>(part: Seq<T>, sep: T)
    requires
        free_of(part, sep),
    ensures
        split(part, sep) == seq![part],
    decreases part.len(),
{
    if part.len() == 0 {
        assert(part =~= Seq::<T>::empty());
    } else {
        let shorter = part.drop_last();
        assert(part[part.len() - 1] != sep);
        assert forall|i: int| 0 <= i < shorter.len() implies #[trigger] shorter[i] != sep by {
            assert(shorter[i] == part[i]);
        }
        lemma_split_whole(shorter, sep);
        assert(shorter.push(part.last()) =~= part);
        assert(seq![shorter].last() == shorter);
        assert(seq![shorter].drop_last().push(part) =~= seq![part]);
    }
}

/// Parts that hold no separator come out of their joined sequence
/// unchanged.
pub proof fn lemma_split_join<T>(parts: Seq<Seq<T>>, sep: T)
    requires
        parts.len() >= 1,
        all_free_of(parts, sep),
    ensures
        split(join(parts, sep), sep) == parts,
    decreases parts.len(),
{
    if parts.len() == 1 {
        lemma_split_whole(parts[0], sep);
        assert(seq![parts[0]] =~= parts);
    } else {
        let front = parts.drop_last();
        assert forall|i: int| 0 <= i < front.len() implies free_of(#[trigger] front[i], sep) by {
            assert(front[i] == parts[i]);
        }
        lemma_split_join(front, sep);
        assert(free_of(parts[parts.len() - 1], sep));
        lemma_split_append(join(front, sep), sep, parts.last());
        assert(front.push(parts.last()) =~= parts);
    }
}

/// What is not the separator and occurs in no part does not occur in the
/// joined sequence.
pub proof fn lemma_join_free_of<T>(parts: Seq<Seq<T>>, sep: T, byte: T)
    requires
        byte != sep,
        all_free_of(parts, byte),
    ensures
        free_of(join(parts, sep), byte),
    decreases parts.len(),
{
    if parts.len() == 1 {
        assert(free_of(parts[0], byte));
    } else if parts.len() > 1 {
        let front = parts.drop_last();
        assert forall|i: int| 0 <= i < front.len() implies free_of(#[trigger] front[i], byte) by {
            assert(front[i] == parts[i]);
        }
        lemma_join_free_of(front, sep, byte);
        assert(free_of(parts[parts.len() - 1], byte));
    }
}

/// The byte strings that the vectors hold.
pub open spec fn views(parts: Seq<Vec<u8>>) -> Seq<Seq<u8>> {
    parts.map_values(|part: Vec<u8>| part@)
}

/// Cuts `bytes` at each `sep`.
pub fn split_bytes(bytes: &[u8], sep: u8) -> (parts: Vec<Vec<u8>>)
    ensures
        views(parts@) == split(bytes@, sep),
{
    let mut parts: Vec<Vec<u8>> = Vec::new();
    let mut current: Vec<u8> = Vec::new();
    let mut i: usize = 0;
    assert(bytes@.subrange(0, 0) =~= Seq::<u8>::empty());
    assert(views(parts@).push(current@) =~= seq![Seq::<u8>::empty()]);
    while i < bytes.len()
        invariant
            i <= bytes.len(),
            views(parts@).push(current@) == split(bytes@.subrange(0, i as int), sep),
        decreases bytes.len() - i,
    {
        let b: u8 = bytes[i];
        let ghost before = split(bytes@.subrange(0, i as int), sep);
        let ghost done = views(parts@);
        let ghost open = current@;
        proof {
            assert(bytes@.subrange(0, i + 1).drop_last() =~= bytes@.subrange(0, i as int));
            assert(bytes@.subrange(0, i + 1).last() == b);
            assert(before.drop_last() =~= done);
            assert(before.last() == open);
        }
        if b == sep {
            parts.push(current);
            current = Vec::new();
            assert(views(parts@) =~= before);
        } else {
            current.push(b);
            assert(views(parts@) =~= done);
        }
        i = i + 1;
    }
    assert(bytes@.subrange(0, i as int) =~= bytes@);
    let ghost done = views(parts@);
    parts.push(current);
    assert(views(parts@) =~= done.push(current@));
    parts
}

} // verus!
