//! Memory-hierarchy core of a CPU emulator: a direct-indexed cache engine,
//! a translation lookaside buffer with configurable purge rules, and a
//! byte-addressable physical memory with alignment-checked access.

use vstd::prelude::*;

pub mod bits;
pub mod cache;
pub mod dram;
pub mod mmu;

use crate::cache::is_pow2;
use crate::mmu::{empty_slot, PurgeRule, Tlb, TlbEntry, TlbView};

verus! {

/// Least number of slots in a register tier.
pub const MIN_REGISTER_SLOTS: usize = 8;

/// The stage that the instruction in flight has reached.
#[allow(dead_code)]
enum CpuInstructionState {
    /// Fetch the instruction from memory.
    Fetch,
    /// Decode the instruction.
    Decode,
    /// Execute the instruction.
    Execute,
    /// Perform the memory accesses it needs.
    Memory,
    /// Write its results to the registers.
    RegisterWrite,
}

/// The translation state of a CPU: for each of the instruction and the
/// data stream a transparent cache tier, from which entries may be purged
/// silently, and a register tier of pinned entries, which an insert never
/// overwrites by overlap.
pub struct CpuState {
    #[allow(dead_code)]
    instr_state: CpuInstructionState,
    itlb: Tlb,
    dtlb: Tlb,
    itlbr: Tlb,
    dtlbr: Tlb,
}

/// The contents of the four tiers of a [`CpuState`].
pub struct CpuStateView {
    /// Instruction cache tier.
    pub itlb: TlbView,
    /// Data cache tier.
    pub dtlb: TlbView,
    /// Instruction register tier.
    pub itlbr: TlbView,
    /// Data register tier.
    pub dtlbr: TlbView,
}

impl CpuStateView {
    /// The cache tiers purge and the register tiers refuse; the register
    /// tiers have their least size; no tier maps a page twice. A new
    /// [`CpuState`] is so, and every operation keeps it so.
    pub open spec fn wf(self) -> bool {
        &&& self.itlb.rule == PurgeRule::MustPurge
        &&& self.dtlb.rule == PurgeRule::MustPurge
        &&& self.itlbr.rule == PurgeRule::MustNotPurge
        &&& self.dtlbr.rule == PurgeRule::MustNotPurge
        &&& self.itlb.slots.len() >= 1
        &&& self.dtlb.slots.len() >= 1
        &&& self.itlbr.slots.len() >= MIN_REGISTER_SLOTS
        &&& self.dtlbr.slots.len() >= MIN_REGISTER_SLOTS
        &&& self.itlb.wf()
        &&& self.dtlb.wf()
        &&& self.itlbr.wf()
        &&& self.dtlbr.wf()
    }
}

impl View for CpuState {
    type V = CpuStateView;

    closed spec fn view(&self) -> CpuStateView {
        CpuStateView { itlb: self.itlb@, dtlb: self.dtlb@, itlbr: self.itlbr@, dtlbr: self.dtlbr@ }
    }
}

impl CpuState {
    /// A CPU whose four tiers have the given numbers of slots, all empty.
    pub fn new(itlb_size: usize, dtlb_size: usize, itlbr_size: usize, dtlbr_size: usize) -> (cpu: Self)
        requires
            is_pow2(itlb_size),
            is_pow2(dtlb_size),
            is_pow2(itlbr_size),
            is_pow2(dtlbr_size),
            itlbr_size >= MIN_REGISTER_SLOTS,
            dtlbr_size >= MIN_REGISTER_SLOTS,
        ensures
            cpu@.wf(),
            cpu@.itlb.slots == Seq::new(itlb_size as nat, |i: int| empty_slot()),
            cpu@.dtlb.slots == Seq::new(dtlb_size as nat, |i: int| empty_slot()),
            cpu@.itlbr.slots == Seq::new(itlbr_size as nat, |i: int| empty_slot()),
            cpu@.dtlbr.slots == Seq::new(dtlbr_size as nat, |i: int| empty_slot()),
    {
        Self {
            instr_state: CpuInstructionState::Fetch,
            itlb: Tlb::new(itlb_size, PurgeRule::MustPurge),
            dtlb: Tlb::new(dtlb_size, PurgeRule::MustPurge),
            itlbr: Tlb::new(itlbr_size, PurgeRule::MustNotPurge),
            dtlbr: Tlb::new(dtlbr_size, PurgeRule::MustNotPurge),
        }
    }

    /// The instruction cache tier.
    pub fn itlb(&self) -> (tlb: &Tlb)
        ensures
            tlb@ == self@.itlb,
    {
        &self.itlb
    }

    /// The data cache tier.
    pub fn dtlb(&self) -> (tlb: &Tlb)
        ensures
            tlb@ == self@.dtlb,
    {
        &self.dtlb
    }

    /// The instruction register tier.
    pub fn itlbr(&self) -> (tlb: &Tlb)
        ensures
            tlb@ == self@.itlbr,
    {
        &self.itlbr
    }

    /// The data register tier.
    pub fn dtlbr(&self) -> (tlb: &Tlb)
        ensures
            tlb@ == self@.dtlbr,
    {
        &self.dtlbr
    }

    /// Pins `entry` for the page of `vaddr` in slot `index` of the
    /// instruction register tier. The page is first invalidated in the
    /// instruction cache tier, so that no stale line there can shadow the
    /// pinned entry; this happens whether the register tier then takes
    /// the entry or refuses it because the page is pinned already.
    pub fn aer_i(&mut self, index: usize, vaddr: u64, entry: TlbEntry) -> (done: Option<()>)
        requires
            old(self)@.itlbr.rejects(vaddr) || index < old(self)@.itlbr.slots.len(),
        ensures
            done.is_none() == old(self)@.itlbr.rejects(vaddr),
            final(self)@.itlb == old(self)@.itlb.inval(vaddr),
            final(self)@.itlbr == old(self)@.itlbr.insert(index as int, vaddr, entry),
            final(self)@.dtlb == old(self)@.dtlb,
            final(self)@.dtlbr == old(self)@.dtlbr,
            old(self)@.wf() ==> final(self)@.wf(),
    {
        self.itlb.inval(vaddr);
        self.itlbr.insert(index, vaddr, entry)
    }

    /// Pins `entry` for the page of `vaddr` in slot `index` of the data
    /// register tier. The page is first invalidated in the data cache
    /// tier, so that no stale line there can shadow the pinned entry; this
    /// happens whether the register tier then takes the entry or refuses
    /// it because the page is pinned already.
    pub fn aer_d(&mut self, index: usize, vaddr: u64, entry: TlbEntry) -> (done: Option<()>)
        requires
            old(self)@.dtlbr.rejects(vaddr) || index < old(self)@.dtlbr.slots.len(),
        ensures
            done.is_none() == old(self)@.dtlbr.rejects(vaddr),
            final(self)@.dtlb == old(self)@.dtlb.inval(vaddr),
            final(self)@.dtlbr == old(self)@.dtlbr.insert(index as int, vaddr, entry),
            final(self)@.itlb == old(self)@.itlb,
            final(self)@.itlbr == old(self)@.itlbr,
            old(self)@.wf() ==> final(self)@.wf(),
    {
        self.dtlb.inval(vaddr);
        self.dtlbr.insert(index, vaddr, entry)
    }
}

} // verus!
