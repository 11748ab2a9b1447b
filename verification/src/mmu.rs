//! Translation lookaside buffer: bit-packed translation entries, tagged by
//! virtual page, in a fixed array of slots, with a rule for what an insert
//! does when the page is already mapped.

use vstd::prelude::*;
use crate::bits::{
    bit, bit_range, field_of, has_bit, lemma_with_bit, lemma_with_bit_keeps_field,
    lemma_with_field, set_bit, set_bit_range, with_bit, with_field,
};
use crate::cache::{is_pow2, is_power_of_two};

verus! {

/// Bit of a [`TlbEntry`] that says whether the entry may be used at all.
pub const VALID_BIT: usize = 0;

/// Bit that says whether the page may be read.
pub const READ_BIT: usize = 1;

/// Bit that says whether the page may be written.
pub const WRITE_BIT: usize = 2;

/// Bit that says whether instructions may be fetched from the page.
pub const EXEC_BIT: usize = 3;

/// Bit that holds the page attribute.
pub const ATTRIB_BIT: usize = 4;

/// Lowest bit of the physical page number.
pub const PPN_LSB: usize = 12;

/// Highest bit of the physical page number.
pub const PPN_MSB: usize = 63;

/// The bits of a physical address that name its 4096-byte page.
pub const PAGE_MASK: u64 = 0xffff_ffff_ffff_f000;

/// One translation, packed into 64 bits: bit 0 valid, bit 1 read, bit 2
/// write, bit 3 execute, bit 4 attribute, bits 12 to 63 the physical page
/// number. Two entries are equal when their words are.
#[derive(Clone, Copy, PartialEq, Eq, Debug, Structural)]
pub struct TlbEntry(pub u64);

/// The word of a valid entry for the page of `paddr` with the given permissions.
pub open spec fn packed(paddr: u64, read: bool, write: bool, execute: bool, attrib: bool) -> u64 {
    (paddr & PAGE_MASK) | flag(read, 2) | flag(write, 4) | flag(execute, 8) | flag(attrib, 16) | 1
}

/// `mask` where `on` holds, else zero.
pub open spec fn flag(on: bool, mask: u64) -> u64 {
    if on {
        mask
    } else {
        0
    }
}

impl TlbEntry {
    /// Whether the entry may be used; an entry that is not valid never hits.
    pub open spec fn is_valid(self) -> bool {
        has_bit(self.0, VALID_BIT as u64)
    }

    /// Whether the page may be read.
    pub open spec fn is_readable(self) -> bool {
        has_bit(self.0, READ_BIT as u64)
    }

    /// Whether the page may be written.
    pub open spec fn is_writable(self) -> bool {
        has_bit(self.0, WRITE_BIT as u64)
    }

    /// Whether instructions may be fetched from the page.
    pub open spec fn is_executable(self) -> bool {
        has_bit(self.0, EXEC_BIT as u64)
    }

    /// The page attribute.
    pub open spec fn has_attrib(self) -> bool {
        has_bit(self.0, ATTRIB_BIT as u64)
    }

    /// The physical page number.
    pub open spec fn page_number(self) -> u64 {
        field_of(self.0, PPN_MSB as u64, PPN_LSB as u64)
    }

    /// The same entry, no longer valid.
    pub open spec fn invalidated(self) -> TlbEntry {
        TlbEntry(with_bit(self.0, VALID_BIT as u64, false))
    }

    /// A valid entry that maps to the page of `paddr`; the bits of `paddr`
    /// within the page are dropped.
    pub fn new(paddr: u64, read: bool, write: bool, execute: bool, attrib: bool) -> (entry: Self)
        ensures
            entry.0 == packed(paddr, read, write, execute, attrib),
            entry.is_valid(),
            entry.is_readable() == read,
            entry.is_writable() == write,
            entry.is_executable() == execute,
            entry.has_attrib() == attrib,
            entry.page_number() == paddr >> 12,
    {
        let r: u64 = if read { 2 } else { 0 };
        let w: u64 = if write { 4 } else { 0 };
        let x: u64 = if execute { 8 } else { 0 };
        let a: u64 = if attrib { 16 } else { 0 };
        let word: u64 = (paddr & PAGE_MASK) | r | w | x | a | 1;
        proof {
            lemma_packed_fields(paddr, read, write, execute, attrib);
        }
        Self(word)
    }

    /// Whether the entry may be used.
    pub fn valid(&self) -> (valid: bool)
        ensures
            valid == self.is_valid(),
    {
        bit(self.0, VALID_BIT)
    }

    /// Whether the page may be read.
    pub fn read(&self) -> (read: bool)
        ensures
            read == self.is_readable(),
    {
        bit(self.0, READ_BIT)
    }

    /// Whether the page may be written.
    pub fn write(&self) -> (write: bool)
        ensures
            write == self.is_writable(),
    {
        bit(self.0, WRITE_BIT)
    }

    /// Whether instructions may be fetched from the page.
    pub fn exec(&self) -> (execute: bool)
        ensures
            execute == self.is_executable(),
    {
        bit(self.0, EXEC_BIT)
    }

    /// The page attribute.
    pub fn attrib(&self) -> (attrib: bool)
        ensures
            attrib == self.has_attrib(),
    {
        bit(self.0, ATTRIB_BIT)
    }

    /// The physical page number.
    pub fn ppn(&self) -> (ppn: u64)
        ensures
            ppn == self.page_number(),
    {
        bit_range(self.0, PPN_MSB, PPN_LSB)
    }

    /// Sets the valid bit and leaves every other bit as it is.
    pub fn set_valid(&mut self, value: bool)
        ensures
            final(self).0 == with_bit(old(self).0, VALID_BIT as u64, value),
            final(self).is_valid() == value,
            final(self).is_readable() == old(self).is_readable(),
            final(self).is_writable() == old(self).is_writable(),
            final(self).is_executable() == old(self).is_executable(),
            final(self).has_attrib() == old(self).has_attrib(),
            final(self).page_number() == old(self).page_number(),
    {
        proof {
            lemma_flag_written(self.0, VALID_BIT as u64, value);
        }
        set_bit(&mut self.0, VALID_BIT, value);
    }

    /// Sets the read bit and leaves every other bit as it is.
    pub fn set_read(&mut self, value: bool)
        ensures
            final(self).0 == with_bit(old(self).0, READ_BIT as u64, value),
            final(self).is_valid() == old(self).is_valid(),
            final(self).is_readable() == value,
            final(self).is_writable() == old(self).is_writable(),
            final(self).is_executable() == old(self).is_executable(),
            final(self).has_attrib() == old(self).has_attrib(),
            final(self).page_number() == old(self).page_number(),
    {
        proof {
            lemma_flag_written(self.0, READ_BIT as u64, value);
        }
        set_bit(&mut self.0, READ_BIT, value);
    }

    /// Sets the write bit and leaves every other bit as it is.
    pub fn set_write(&mut self, value: bool)
        ensures
            final(self).0 == with_bit(old(self).0, WRITE_BIT as u64, value),
            final(self).is_valid() == old(self).is_valid(),
            final(self).is_readable() == old(self).is_readable(),
            final(self).is_writable() == value,
            final(self).is_executable() == old(self).is_executable(),
            final(self).has_attrib() == old(self).has_attrib(),
            final(self).page_number() == old(self).page_number(),
    {
        proof {
            lemma_flag_written(self.0, WRITE_BIT as u64, value);
        }
        set_bit(&mut self.0, WRITE_BIT, value);
    }

    /// Sets the execute bit and leaves every other bit as it is.
    pub fn set_exec(&mut self, value: bool)
        ensures
            final(self).0 == with_bit(old(self).0, EXEC_BIT as u64, value),
            final(self).is_valid() == old(self).is_valid(),
            final(self).is_readable() == old(self).is_readable(),
            final(self).is_writable() == old(self).is_writable(),
            final(self).is_executable() == value,
            final(self).has_attrib() == old(self).has_attrib(),
            final(self).page_number() == old(self).page_number(),
    {
        proof {
            lemma_flag_written(self.0, EXEC_BIT as u64, value);
        }
        set_bit(&mut self.0, EXEC_BIT, value);
    }

    /// Sets the attribute bit and leaves every other bit as it is.
    pub fn set_attrib(&mut self, value: bool)
        ensures
            final(self).0 == with_bit(old(self).0, ATTRIB_BIT as u64, value),
            final(self).is_valid() == old(self).is_valid(),
            final(self).is_readable() == old(self).is_readable(),
            final(self).is_writable() == old(self).is_writable(),
            final(self).is_executable() == old(self).is_executable(),
            final(self).has_attrib() == value,
            final(self).page_number() == old(self).page_number(),
    {
        proof {
            lemma_flag_written(self.0, ATTRIB_BIT as u64, value);
        }
        set_bit(&mut self.0, ATTRIB_BIT, value);
    }

    /// Sets the physical page number to the low 52 bits of `value` and
    /// leaves the bits below the page number as they are.
    pub fn set_ppn(&mut self, value: u64)
        ensures
            final(self).0 == with_field(old(self).0, PPN_MSB as u64, PPN_LSB as u64, value),
            final(self).is_valid() == old(self).is_valid(),
            final(self).is_readable() == old(self).is_readable(),
            final(self).is_writable() == old(self).is_writable(),
            final(self).is_executable() == old(self).is_executable(),
            final(self).has_attrib() == old(self).has_attrib(),
            final(self).page_number() == value & 0x000f_ffff_ffff_ffff,
    {
        proof {
            let word = self.0;
            lemma_with_field(word, 63, 12, value, 0);
            lemma_with_field(word, 63, 12, value, 1);
            lemma_with_field(word, 63, 12, value, 2);
            lemma_with_field(word, 63, 12, value, 3);
            lemma_with_field(word, 63, 12, value, 4);
            assert(field_of(value << 12, 63, 12) == value & 0x000f_ffff_ffff_ffff) by (bit_vector);
        }
        set_bit_range(&mut self.0, PPN_MSB, PPN_LSB, value);
    }
}

/// Writing one of the five flag bits changes that flag and nothing else.
pub proof fn lemma_flag_written(word: u64, index: u64, value: bool)
    requires
        index <= 4,
    ensures
        forall|other: u64|
            other <= 4 ==> #[trigger] has_bit(with_bit(word, index, value), other) == (if other
                == index {
                value
            } else {
                has_bit(word, other)
            }),
        field_of(with_bit(word, index, value), 63, 12) == field_of(word, 63, 12),
{
    assert forall|other: u64| other <= 4 implies #[trigger] has_bit(
        with_bit(word, index, value),
        other,
    ) == (if other == index {
        value
    } else {
        has_bit(word, other)
    }) by {
        lemma_with_bit(word, index, value, other);
    }
    lemma_with_bit_keeps_field(word, index, value, 63, 12);
}

/// What each field of a freshly packed entry holds.
pub proof fn lemma_packed_fields(paddr: u64, read: bool, write: bool, execute: bool, attrib: bool)
    ensures
        has_bit(packed(paddr, read, write, execute, attrib), 0),
        has_bit(packed(paddr, read, write, execute, attrib), 1) == read,
        has_bit(packed(paddr, read, write, execute, attrib), 2) == write,
        has_bit(packed(paddr, read, write, execute, attrib), 3) == execute,
        has_bit(packed(paddr, read, write, execute, attrib), 4) == attrib,
        field_of(packed(paddr, read, write, execute, attrib), 63, 12) == paddr >> 12,
        packed(paddr, read, write, execute, attrib) & 0xfe0 == 0,
{
    let r: u64 = if read { 2 } else { 0 };
    let w: u64 = if write { 4 } else { 0 };
    let x: u64 = if execute { 8 } else { 0 };
    let a: u64 = if attrib { 16 } else { 0 };
    let word: u64 = (paddr & 0xffff_ffff_ffff_f000) | r | w | x | a | 1;
    assert(word == packed(paddr, read, write, execute, attrib));
    assert(has_bit(word, 0) && has_bit(word, 1) == (r == 2) && has_bit(word, 2) == (w == 4)
        && has_bit(word, 3) == (x == 8) && has_bit(word, 4) == (a == 16) && field_of(word, 63, 12)
        == paddr >> 12 && word & 0xfe0 == 0) by (bit_vector)
        requires
            word == (paddr & 0xffff_ffff_ffff_f000) | r | w | x | a | 1,
            r == 2 || r == 0,
            w == 4 || w == 0,
            x == 8 || x == 0,
            a == 16 || a == 0,
    ;
}

/// What an insert does when the page it maps is already mapped by a valid slot.
#[derive(Clone, Copy, PartialEq, Eq, Debug, Structural)]
pub enum PurgeRule {
    /// Every valid slot that maps the page is invalidated first; the insert
    /// never fails.
    MustPurge,
    /// The insert is refused and nothing changes; the caller has to
    /// invalidate the page first.
    MustNotPurge,
    /// The buffer is free to purge but does not: an overlap is refused as
    /// under `MustNotPurge`.
    MayPurge,
}

/// A slot: the tag of a virtual page and the entry it translates to.
pub type Slot = (u64, TlbEntry);

/// The page tag of a virtual address: the address without its offset in the page.
pub open spec fn page_tag(vaddr: u64) -> u64 {
    vaddr >> 12
}

/// Whether `slot` is valid and maps the page `tag`.
pub open spec fn maps(slot: Slot, tag: u64) -> bool {
    slot.1.is_valid() && slot.0 == tag
}

/// The slot as a purge of the page `tag` leaves it.
pub open spec fn purged(slot: Slot, tag: u64) -> Slot {
    if maps(slot, tag) {
        (slot.0, slot.1.invalidated())
    } else {
        slot
    }
}

/// The slot that a new buffer is filled with: tag zero and an entry that is not valid.
pub open spec fn empty_slot() -> Slot {
    (0u64, TlbEntry(0))
}

/// The index of the first slot from `start` on that maps the page `tag`,
/// or the number of slots where there is none.
pub open spec fn first_hit_from(slots: Seq<Slot>, tag: u64, start: int) -> int
    decreases slots.len() - start,
{
    if start < 0 || start >= slots.len() {
        slots.len() as int
    } else if maps(slots[start], tag) {
        start
    } else {
        first_hit_from(slots, tag, start + 1)
    }
}

/// No page is mapped by two valid slots.
pub open spec fn single_mapped(slots: Seq<Slot>) -> bool {
    forall|i: int, j: int|
        0 <= i < j < slots.len() && (#[trigger] slots[i]).1.is_valid() && (#[trigger] slots[j]).1.is_valid()
            ==> slots[i].0 != slots[j].0
}

/// The contents of a [`Tlb`]: its slots in order, and its rule.
pub struct TlbView {
    pub slots: Seq<Slot>,
    pub rule: PurgeRule,
}

impl TlbView {
    /// No page is mapped by two valid slots. A new [`Tlb`] is so, and
    /// every operation keeps it so.
    pub open spec fn wf(self) -> bool {
        single_mapped(self.slots)
    }

    /// Whether some valid slot maps the page `tag`.
    pub open spec fn holds(self, tag: u64) -> bool {
        exists|i: int| 0 <= i < self.slots.len() && maps(#[trigger] self.slots[i], tag)
    }

    /// The entry of the first valid slot that maps the page of `vaddr`.
    pub open spec fn fetch(self, vaddr: u64) -> Option<TlbEntry> {
        let hit = first_hit_from(self.slots, page_tag(vaddr), 0);
        if hit < self.slots.len() {
            Some(self.slots[hit].1)
        } else {
            None
        }
    }

    /// The buffer with every valid slot that maps the page `tag` invalidated.
    pub open spec fn purge(self, tag: u64) -> TlbView {
        TlbView { slots: Seq::new(self.slots.len(), |i: int| purged(self.slots[i], tag)), rule: self.rule }
    }

    /// The buffer after the page of `vaddr` was invalidated.
    pub open spec fn inval(self, vaddr: u64) -> TlbView {
        self.purge(page_tag(vaddr))
    }

    /// Whether an insert for `vaddr` is refused: the rule does not purge and
    /// the page is mapped already.
    pub open spec fn rejects(self, vaddr: u64) -> bool {
        self.rule != PurgeRule::MustPurge && self.holds(page_tag(vaddr))
    }

    /// The buffer after an insert of `entry` for `vaddr` into slot `idx`.
    pub open spec fn insert(self, idx: int, vaddr: u64, entry: TlbEntry) -> TlbView {
        if self.rejects(vaddr) {
            self
        } else if self.rule == PurgeRule::MustPurge {
            TlbView {
                slots: self.inval(vaddr).slots.update(idx, (page_tag(vaddr), entry)),
                rule: self.rule,
            }
        } else {
            TlbView { slots: self.slots.update(idx, (page_tag(vaddr), entry)), rule: self.rule }
        }
    }
}

/// Where the search from `start` ends: at the first slot that maps the
/// page, with none before it, or past the last slot.
pub proof fn lemma_first_hit_from(slots: Seq<Slot>, tag: u64, start: int)
    requires
        0 <= start <= slots.len(),
    ensures
        start <= first_hit_from(slots, tag, start) <= slots.len(),
        first_hit_from(slots, tag, start) < slots.len() ==> maps(
            slots[first_hit_from(slots, tag, start)],
            tag,
        ),
        forall|i: int| start <= i < first_hit_from(slots, tag, start) ==> !maps(#[trigger] slots[i], tag),
    decreases slots.len() - start,
{
    if start < slots.len() && !maps(slots[start], tag) {
        lemma_first_hit_from(slots, tag, start + 1);
    }
}

/// The search finds slot `hit` when that slot maps the page and none before it does.
pub proof fn lemma_first_hit_is(slots: Seq<Slot>, tag: u64, hit: int)
    requires
        0 <= hit < slots.len(),
        maps(slots[hit], tag),
        forall|i: int| 0 <= i < hit ==> !maps(#[trigger] slots[i], tag),
    ensures
        first_hit_from(slots, tag, 0) == hit,
{
    lemma_first_hit_from(slots, tag, 0);
}

/// A fixed array of translation slots with a purge rule.
pub struct Tlb {
    slots: Vec<Slot>,
    rule: PurgeRule,
}

impl View for Tlb {
    type V = TlbView;

    closed spec fn view(&self) -> TlbView {
        TlbView { slots: self.slots@, rule: self.rule }
    }
}

impl Tlb {
    #[verifier::type_invariant]
    spec fn inv(&self) -> bool {
        is_pow2(self.slots.len())
    }

    /// A buffer of `size` empty slots under `rule`.
    pub fn new(size: usize, rule: PurgeRule) -> (tlb: Self)
        requires
            is_pow2(size),
        ensures
            tlb@.rule == rule,
            tlb@.slots == Seq::new(size as nat, |i: int| empty_slot()),
            tlb@.wf(),
    {
        let mut slots: Vec<Slot> = Vec::new();
        let mut filled: usize = 0;
        while filled < size
            invariant
                filled <= size,
                slots@ == Seq::new(filled as nat, |i: int| empty_slot()),
            decreases size - filled,
        {
            slots.push((0, TlbEntry(0)));
            filled += 1;
            assert(slots@ =~= Seq::new(filled as nat, |i: int| empty_slot()));
        }
        proof {
            lemma_empty_slot_not_valid();
        }
        Self { slots, rule }
    }

    /// A buffer of `size` empty slots under `rule`, or nothing where `size`
    /// is no power of two.
    pub fn try_new(size: usize, rule: PurgeRule) -> (made: Option<Self>)
        ensures
            made.is_some() == is_pow2(size),
            made matches Some(tlb) ==> tlb@.rule == rule && tlb@.wf() && tlb@.slots == Seq::new(
                size as nat,
                |i: int| empty_slot(),
            ),
    {
        if is_power_of_two(size) {
            Some(Self::new(size, rule))
        } else {
            None
        }
    }

    /// The number of slots, a power of two.
    pub fn len(&self) -> (len: usize)
        ensures
            len == self@.slots.len(),
            is_pow2(len),
    {
        proof {
            use_type_invariant(self);
        }
        self.slots.len()
    }

    /// The rule that the buffer was made with.
    pub fn rule(&self) -> (rule: PurgeRule)
        ensures
            rule == self@.rule,
    {
        self.rule
    }

    /// Index of the first valid slot that maps the page `tag`, or the
    /// number of slots where there is none.
    fn find(&self, tag: u64) -> (hit: usize)
        ensures
            hit == first_hit_from(self@.slots, tag, 0),
            hit <= self@.slots.len(),
            (hit < self@.slots.len()) == self@.holds(tag),
    {
        let mut i: usize = 0;
        proof {
            lemma_first_hit_from(self.slots@, tag, 0);
        }
        while i < self.slots.len()
            invariant
                i <= self.slots.len(),
                first_hit_from(self.slots@, tag, 0) == first_hit_from(self.slots@, tag, i as int),
                forall|j: int| 0 <= j < i ==> !maps(#[trigger] self.slots@[j], tag),
            decreases self.slots.len() - i,
        {
            let slot = self.slots[i];
            if slot.1.valid() && slot.0 == tag {
                return i;
            }
            i += 1;
        }
        i
    }

    /// The translation of the page of `vaddr`: the entry of the first valid
    /// slot that maps it, or nothing where no valid slot does.
    pub fn fetch(&self, vaddr: u64) -> (found: Option<TlbEntry>)
        ensures
            found == self@.fetch(vaddr),
            found.is_some() == self@.holds(page_tag(vaddr)),
    {
        let hit = self.find(vaddr >> 12);
        if hit < self.slots.len() {
            Some(self.slots[hit].1)
        } else {
            None
        }
    }

    /// Invalidates every valid slot that maps the page `tag`.
    fn purge(&mut self, tag: u64)
        ensures
            final(self)@ == old(self)@.purge(tag),
            old(self)@.wf() ==> final(self)@.wf(),
    {
        proof {
            use_type_invariant(&*self);
        }
        let mut i: usize = 0;
        while i < self.slots.len()
            invariant
                i <= self.slots.len(),
                self.slots.len() == old(self).slots.len(),
                self.rule == old(self).rule,
                is_pow2(self.slots.len()),
                forall|j: int| 0 <= j < i ==> #[trigger] self.slots@[j] == purged(old(self).slots@[j], tag),
                forall|j: int| i <= j < self.slots.len() ==> #[trigger] self.slots@[j] == old(self).slots@[j],
            decreases self.slots.len() - i,
        {
            let slot = self.slots[i];
            let mut entry = slot.1;
            if entry.valid() && slot.0 == tag {
                entry.set_valid(false);
                self.slots[i] = (slot.0, entry);
            }
            i += 1;
        }
        assert(self@.slots =~= old(self)@.purge(tag).slots);
        proof {
            if old(self)@.wf() {
                lemma_purge_keeps_wf(old(self)@, tag);
            }
        }
    }

    /// Invalidates every valid slot that maps the page of `vaddr`. Where
    /// there is none, nothing changes.
    pub fn inval(&mut self, vaddr: u64)
        ensures
            final(self)@ == old(self)@.inval(vaddr),
            !final(self)@.holds(page_tag(vaddr)),
            old(self)@.wf() ==> final(self)@.wf(),
    {
        self.purge(vaddr >> 12);
        proof {
            lemma_purge_clears(old(self)@, page_tag(vaddr));
        }
    }

    /// Installs `entry` for the page of `vaddr` in slot `idx`, after the
    /// rule was applied to the whole buffer: under `MustPurge` the page is
    /// invalidated first; under the other rules the insert is refused, and
    /// nothing changes, where a valid slot maps the page already. What the
    /// slot held before is overwritten.
    pub fn insert(&mut self, idx: usize, vaddr: u64, entry: TlbEntry) -> (done: Option<()>)
        requires
            old(self)@.rejects(vaddr) || idx < old(self)@.slots.len(),
        ensures
            done.is_none() == old(self)@.rejects(vaddr),
            final(self)@ == old(self)@.insert(idx as int, vaddr, entry),
            old(self)@.wf() ==> final(self)@.wf(),
    {
        let tag = vaddr >> 12;
        match self.rule {
            PurgeRule::MustPurge => {
                self.purge(tag);
            },
            _ => {
                if self.find(tag) < self.slots.len() {
                    return None;
                }
            },
        }
        proof {
            use_type_invariant(&*self);
            if old(self)@.wf() {
                lemma_insert_keeps_wf(old(self)@, idx as int, vaddr, entry);
            }
        }
        self.slots[idx] = (tag, entry);
        Some(())
    }
}

/// The slot of a new buffer is not valid.
pub proof fn lemma_empty_slot_not_valid()
    ensures
        !empty_slot().1.is_valid(),
{
    assert(!has_bit(0u64, 0)) by (bit_vector);
}

/// An invalidated entry is not valid.
pub proof fn lemma_invalidated_not_valid(entry: TlbEntry)
    ensures
        !entry.invalidated().is_valid(),
{
    lemma_with_bit(entry.0, 0, false, 0);
}

/// A purge keeps every page mapped at most once.
pub proof fn lemma_purge_keeps_wf(tlb: TlbView, tag: u64)
    requires
        tlb.wf(),
    ensures
        tlb.purge(tag).wf(),
{
    let after = tlb.purge(tag).slots;
    assert forall|i: int| 0 <= i < after.len() && (#[trigger] after[i]).1.is_valid() implies after[i]
        == tlb.slots[i] by {
        lemma_invalidated_not_valid(tlb.slots[i].1);
    }
}

/// An insert keeps every page mapped at most once, whether it is refused or not.
pub proof fn lemma_insert_keeps_wf(tlb: TlbView, idx: int, vaddr: u64, entry: TlbEntry)
    requires
        tlb.wf(),
        tlb.rejects(vaddr) || 0 <= idx < tlb.slots.len(),
    ensures
        tlb.insert(idx, vaddr, entry).wf(),
{
    if !tlb.rejects(vaddr) {
        lemma_purge_keeps_wf(tlb, page_tag(vaddr));
        lemma_purge_clears(tlb, page_tag(vaddr));
    }
}

/// After a purge no valid slot maps the page.
pub proof fn lemma_purge_clears(tlb: TlbView, tag: u64)
    ensures
        !tlb.purge(tag).holds(tag),
        tlb.purge(tag).slots.len() == tlb.slots.len(),
{
    assert forall|i: int| 0 <= i < tlb.slots.len() implies !maps(
        #[trigger] tlb.purge(tag).slots[i],
        tag,
    ) by {
        lemma_with_bit(tlb.slots[i].1.0, 0, false, 0);
    }
}

/// A buffer in which no valid slot maps the page has nothing to fetch for it.
pub proof fn lemma_fetch_miss(tlb: TlbView, vaddr: u64)
    ensures
        tlb.fetch(vaddr).is_some() == tlb.holds(page_tag(vaddr)),
{
    lemma_first_hit_from(tlb.slots, page_tag(vaddr), 0);
}

/// A fetch finds the entry of slot `idx` where that slot is the only valid
/// one that maps the page.
pub proof fn lemma_fetch_only(tlb: TlbView, vaddr: u64, idx: int)
    requires
        0 <= idx < tlb.slots.len(),
        maps(tlb.slots[idx], page_tag(vaddr)),
        forall|i: int| 0 <= i < tlb.slots.len() && i != idx ==> !maps(#[trigger] tlb.slots[i], page_tag(vaddr)),
    ensures
        tlb.fetch(vaddr) == Some(tlb.slots[idx].1),
{
    lemma_first_hit_is(tlb.slots, page_tag(vaddr), idx);
}

/// Under `MustPurge`, two inserts for one page both succeed, whatever
/// their slots, and a fetch of the page then gives the entry inserted
/// last, if that entry is valid.
pub proof fn lemma_must_purge_latest_wins(
    tlb: TlbView,
    idx_0: int,
    vaddr_0: u64,
    entry_0: TlbEntry,
    idx_1: int,
    vaddr_1: u64,
    entry_1: TlbEntry,
)
    requires
        tlb.rule == PurgeRule::MustPurge,
        0 <= idx_0 < tlb.slots.len(),
        0 <= idx_1 < tlb.slots.len(),
        page_tag(vaddr_0) == page_tag(vaddr_1),
        entry_1.is_valid(),
    ensures
        !tlb.rejects(vaddr_0),
        !tlb.insert(idx_0, vaddr_0, entry_0).rejects(vaddr_1),
        tlb.insert(idx_0, vaddr_0, entry_0).insert(idx_1, vaddr_1, entry_1).fetch(vaddr_0) == Some(
            entry_1,
        ),
{
    let first = tlb.insert(idx_0, vaddr_0, entry_0);
    let second = first.insert(idx_1, vaddr_1, entry_1);
    lemma_purge_clears(first, page_tag(vaddr_1));
    lemma_fetch_only(second, vaddr_0, idx_1);
}

/// Under a rule that does not purge, once a valid entry was inserted for a
/// page that no slot mapped, a second insert for that page is refused,
/// whatever its slot: the buffer stays as the first insert left it, so the
/// second entry is stored nowhere, and a fetch of the page still gives the
/// first entry.
pub proof fn lemma_must_not_purge_first_stays(
    tlb: TlbView,
    idx_0: int,
    vaddr_0: u64,
    entry_0: TlbEntry,
    idx_1: int,
    vaddr_1: u64,
    entry_1: TlbEntry,
)
    requires
        tlb.rule != PurgeRule::MustPurge,
        0 <= idx_0 < tlb.slots.len(),
        0 <= idx_1 < tlb.slots.len(),
        page_tag(vaddr_0) == page_tag(vaddr_1),
        entry_0.is_valid(),
        !tlb.holds(page_tag(vaddr_0)),
    ensures
        !tlb.rejects(vaddr_0),
        tlb.insert(idx_0, vaddr_0, entry_0).rejects(vaddr_1),
        tlb.insert(idx_0, vaddr_0, entry_0).insert(idx_1, vaddr_1, entry_1) == tlb.insert(
            idx_0,
            vaddr_0,
            entry_0,
        ),
        tlb.insert(idx_0, vaddr_0, entry_0).insert(idx_1, vaddr_1, entry_1).fetch(vaddr_0) == Some(
            entry_0,
        ),
{
    let first = tlb.insert(idx_0, vaddr_0, entry_0);
    assert(maps(first.slots[idx_0], page_tag(vaddr_1)));
    lemma_fetch_only(first, vaddr_0, idx_0);
}

/// Two inserts for different pages into one slot: the second succeeds and
/// overwrites the first, so the first page can no longer be fetched and
/// the second can, if its entry is valid. Under a rule that does not purge
/// this is so where neither page was mapped before.
pub proof fn lemma_same_slot_overwrite(
    tlb: TlbView,
    idx: int,
    vaddr_0: u64,
    entry_0: TlbEntry,
    vaddr_1: u64,
    entry_1: TlbEntry,
)
    requires
        0 <= idx < tlb.slots.len(),
        page_tag(vaddr_0) != page_tag(vaddr_1),
        entry_1.is_valid(),
        tlb.rule != PurgeRule::MustPurge ==> !tlb.holds(page_tag(vaddr_0)) && !tlb.holds(
            page_tag(vaddr_1),
        ),
    ensures
        !tlb.insert(idx, vaddr_0, entry_0).rejects(vaddr_1),
        tlb.insert(idx, vaddr_0, entry_0).insert(idx, vaddr_1, entry_1).fetch(vaddr_0).is_none(),
        tlb.insert(idx, vaddr_0, entry_0).insert(idx, vaddr_1, entry_1).fetch(vaddr_1) == Some(
            entry_1,
        ),
{
    let first = tlb.insert(idx, vaddr_0, entry_0);
    let second = first.insert(idx, vaddr_1, entry_1);
    lemma_purge_clears(tlb, page_tag(vaddr_0));
    lemma_purge_clears(first, page_tag(vaddr_1));
    assert forall|i: int| 0 <= i < first.slots.len() && i != idx implies !maps(
        #[trigger] first.slots[i],
        page_tag(vaddr_0),
    ) by {
        if tlb.rule == PurgeRule::MustPurge {
            assert(first.slots[i] == tlb.purge(page_tag(vaddr_0)).slots[i]);
        } else {
            assert(first.slots[i] == tlb.slots[i]);
        }
    }
    assert forall|i: int| 0 <= i < second.slots.len() implies !maps(
        #[trigger] second.slots[i],
        page_tag(vaddr_0),
    ) by {
        if i != idx {
            if tlb.rule == PurgeRule::MustPurge {
                assert(second.slots[i] == purged(first.slots[i], page_tag(vaddr_1)));
                lemma_invalidated_not_valid(first.slots[i].1);
            } else {
                assert(second.slots[i] == first.slots[i]);
            }
        }
    }
    lemma_fetch_miss(second, vaddr_0);
    assert forall|i: int| 0 <= i < second.slots.len() && i != idx implies !maps(
        #[trigger] second.slots[i],
        page_tag(vaddr_1),
    ) by {
        if tlb.rule == PurgeRule::MustPurge {
            assert(second.slots[i] == first.purge(page_tag(vaddr_1)).slots[i]);
        } else {
            assert(second.slots[i] == first.slots[i]);
            assert(first.slots[i] == tlb.slots[i]);
        }
    }
    lemma_fetch_only(second, vaddr_1, idx);
}

/// Invalidating a page that no valid slot maps changes nothing, and
/// invalidating a page twice is the same as invalidating it once.
pub proof fn lemma_inval_idempotent(tlb: TlbView, vaddr: u64)
    ensures
        !tlb.holds(page_tag(vaddr)) ==> tlb.inval(vaddr) == tlb,
        tlb.inval(vaddr).inval(vaddr) == tlb.inval(vaddr),
{
    if !tlb.holds(page_tag(vaddr)) {
        assert(tlb.inval(vaddr).slots =~= tlb.slots);
    }
    lemma_purge_clears(tlb, page_tag(vaddr));
    assert(tlb.inval(vaddr).inval(vaddr).slots =~= tlb.inval(vaddr).slots);
}

} // verus!
