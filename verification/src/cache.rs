//! A fixed-capacity, direct-indexed cache of tagged entries.
//!
//! The capacity is a power of two, so an index is mapped to its slot by a
//! bitmask. The engine knows nothing about what it stores: validity and tag
//! comparison are the owner's business. There is no removal: to invalidate
//! a slot, insert an entry that the owner treats as invalid.

use vstd::prelude::*;

verus! {

/// `true` when `n` has exactly one bit set.
pub open spec fn is_pow2(n: usize) -> bool {
    n != 0 && n & ((n - 1) as usize) == 0
}

/// The slot of a `capacity`-slot cache that `index` falls into.
pub open spec fn slot_of(capacity: usize, index: usize) -> int {
    (index & ((capacity - 1) as usize)) as int
}

/// Tells whether `n` is a power of two.
pub fn is_power_of_two(n: usize) -> (yes: bool)
    ensures
        yes == is_pow2(n),
{
    n != 0 && n & (n - 1) == 0
}

/// A slot index never leaves the cache.
pub proof fn lemma_slot_in_range(capacity: usize, index: usize)
    requires
        capacity != 0,
    ensures
        0 <= slot_of(capacity, index) < capacity,
{
    assert(index & ((capacity - 1) as usize) < capacity) by (bit_vector)
        requires
            capacity != 0,
    ;
}

/// A tag together with the data it labels. The data is reached by
/// dereferencing the entry.
#[derive(PartialEq, Eq)]
pub struct CacheEntry<Tag: Sized + Copy, Data: Sized>(pub Tag, pub Data);

impl<Tag: Copy, Data> CacheEntry<Tag, Data> {
    /// Pairs `tag` with `data`.
    pub fn new(tag: Tag, data: Data) -> (entry: Self)
        ensures
            entry.0 == tag,
            entry.1 == data,
    {
        Self(tag, data)
    }

    /// The entry's tag.
    pub fn tag(&self) -> (tag: Tag)
        ensures
            tag == self.0,
    {
        self.0
    }

    /// Replaces the tag and leaves the data as it is.
    pub fn set_tag(&mut self, tag: Tag)
        ensures
            final(self).0 == tag,
            final(self).1 == old(self).1,
    {
        self.0 = tag
    }
}

impl<Tag: Copy, Data> std::ops::Deref for CacheEntry<Tag, Data> {
    type Target = Data;

    fn deref(&self) -> (data: &Data)
        ensures
            *data == self.1,
    {
        &self.1
    }
}

impl<Tag: Copy, Data> std::ops::DerefMut for CacheEntry<Tag, Data> {
    fn deref_mut(&mut self) -> (data: &mut Data)
        ensures
            *data == old(self).1,
            final(self).0 == old(self).0,
            final(self).1 == *final(data),
    {
        &mut self.1
    }
}

/// An entry as a new cache holds it: tag and data have their default values.
pub open spec fn is_blank<Tag: Copy + Default, Data: Default>(entry: CacheEntry<Tag, Data>) -> bool {
    &&& call_ensures(Tag::default, (), entry.0)
    &&& call_ensures(Data::default, (), entry.1)
}

/// The entry in the slot of `index`.
pub open spec fn entry_at<Tag: Copy, Data>(
    slots: Seq<CacheEntry<Tag, Data>>,
    index: usize,
) -> CacheEntry<Tag, Data> {
    slots[slot_of(slots.len() as usize, index)]
}

/// The slots after `entry` was inserted at `index`.
pub open spec fn after_insert<Tag: Copy, Data>(
    slots: Seq<CacheEntry<Tag, Data>>,
    index: usize,
    entry: CacheEntry<Tag, Data>,
) -> Seq<CacheEntry<Tag, Data>> {
    slots.update(slot_of(slots.len() as usize, index), entry)
}

/// A power-of-two-sized array of entries, indexed through a bitmask.
pub struct Cache<Tag: Sized + Copy, Data: Sized> {
    data: Vec<CacheEntry<Tag, Data>>,
    index_mask: usize,
}

impl<Tag: Copy, Data> View for Cache<Tag, Data> {
    type V = Seq<CacheEntry<Tag, Data>>;

    closed spec fn view(&self) -> Seq<CacheEntry<Tag, Data>> {
        self.data@
    }
}

impl<Tag: Copy + Default, Data: Default> Cache<Tag, Data> {
    /// A cache of `size` blank slots.
    pub fn new(size: usize) -> (cache: Self)
        requires
            is_pow2(size),
        ensures
            cache@.len() == size,
            forall|i: int| 0 <= i < size ==> is_blank(#[trigger] cache@[i]),
    {
        let mut data: Vec<CacheEntry<Tag, Data>> = Vec::new();
        let mut filled: usize = 0;
        while filled < size
            invariant
                filled <= size,
                data@.len() == filled,
                forall|i: int| 0 <= i < filled ==> is_blank(#[trigger] data@[i]),
            decreases size - filled,
        {
            data.push(CacheEntry(Tag::default(), Data::default()));
            filled += 1;
        }
        Self { data, index_mask: size - 1 }
    }

    /// A cache of `size` blank slots, or nothing where `size` is no power of two.
    pub fn try_new(size: usize) -> (made: Option<Self>)
        ensures
            made.is_some() == is_pow2(size),
            made matches Some(cache) ==> {
                &&& cache@.len() == size
                &&& forall|i: int| 0 <= i < size ==> is_blank(#[trigger] cache@[i])
            },
    {
        if is_power_of_two(size) {
            Some(Self::new(size))
        } else {
            None
        }
    }
}

impl<Tag: Copy, Data> Cache<Tag, Data> {
    #[verifier::type_invariant]
    spec fn inv(&self) -> bool {
        &&& is_pow2(self.data.len())
        &&& self.index_mask == self.data.len() - 1
    }

    /// The number of slots, a power of two.
    pub fn capacity(&self) -> (capacity: usize)
        ensures
            capacity == self@.len(),
            is_pow2(capacity),
    {
        proof {
            use_type_invariant(self);
        }
        self.data.len()
    }

    /// Stores `entry` in the slot of `index` and hands back the entry that was there.
    pub fn insert(&mut self, index: usize, entry: CacheEntry<Tag, Data>) -> (evicted: CacheEntry<
        Tag,
        Data,
    >)
        ensures
            evicted == entry_at(old(self)@, index),
            final(self)@ == after_insert(old(self)@, index, entry),
    {
        proof {
            use_type_invariant(&*self);
            lemma_slot_in_range(self.data.len(), index);
        }
        let mut entry = entry;
        std::mem::swap(&mut entry, &mut self.data[index & self.index_mask]);
        entry
    }

    /// The entry in the slot of `index`, whatever its tag.
    pub fn get(&self, index: usize) -> (entry: &CacheEntry<Tag, Data>)
        ensures
            *entry == entry_at(self@, index),
    {
        proof {
            use_type_invariant(self);
            lemma_slot_in_range(self.data.len(), index);
        }
        &self.data[index & self.index_mask]
    }
}

/// What is inserted at an index is what a lookup of that index then finds;
/// the capacity and every other slot stay as they were.
pub proof fn lemma_insert_then_get<Tag: Copy, Data>(
    slots: Seq<CacheEntry<Tag, Data>>,
    index: usize,
    entry: CacheEntry<Tag, Data>,
)
    requires
        slots.len() <= usize::MAX,
        is_pow2(slots.len() as usize),
    ensures
        0 <= slot_of(slots.len() as usize, index) < slots.len(),
        entry_at(after_insert(slots, index, entry), index) == entry,
        after_insert(slots, index, entry).len() == slots.len(),
        forall|other: usize|
            slot_of(slots.len() as usize, other) != slot_of(slots.len() as usize, index)
                ==> #[trigger] entry_at(after_insert(slots, index, entry), other) == entry_at(
                slots,
                other,
            ),
{
    lemma_slot_in_range(slots.len() as usize, index);
    assert forall|other: usize|
        slot_of(slots.len() as usize, other) != slot_of(
            slots.len() as usize,
            index,
        ) implies #[trigger] entry_at(after_insert(slots, index, entry), other) == entry_at(
        slots,
        other,
    ) by {
        lemma_slot_in_range(slots.len() as usize, other);
    }
}

} // verus!
