//! Physical memory: a zero-initialised region of 8-byte cells, read and
//! written in units of 1, 2, 4 or 8 bytes at naturally aligned addresses.
//!
//! Values wider than a byte are stored little-endian, whatever the byte
//! order of the machine that runs the emulator.

use vstd::prelude::*;

verus! {

/// The number of values that `width` bytes can hold: 256 to the power of `width`.
pub open spec fn span(width: nat) -> nat
    decreases width,
{
    if width == 0 {
        1
    } else {
        256 * span((width - 1) as nat)
    }
}

/// Whether `addr` is a multiple of `width`.
pub open spec fn aligned(addr: u64, width: nat) -> bool {
    width > 0 && addr as nat % width == 0
}

/// The little-endian value of the `width` bytes of `mem` from `addr` on.
pub open spec fn le_value_at(mem: Seq<u8>, addr: int, width: nat) -> nat
    decreases width,
{
    if width == 0 {
        0
    } else {
        mem[addr] as nat + 256 * le_value_at(mem, addr + 1, (width - 1) as nat)
    }
}

/// Byte `k` of the little-endian form of `value`.
pub open spec fn le_byte(value: nat, k: nat) -> u8 {
    ((value / span(k)) % 256) as u8
}

/// What a read of `width` bytes at `addr` gives: the little-endian value
/// of the bytes there, or nothing where `addr` is not aligned to `width`.
pub open spec fn load(mem: Seq<u8>, addr: u64, width: nat) -> Option<nat> {
    if aligned(addr, width) {
        Some(le_value_at(mem, addr as int, width))
    } else {
        None
    }
}

/// The memory after a write of `value` in `width` bytes at `addr`: the
/// bytes from `addr` on hold the little-endian form of `value` and all
/// others are as before; where `addr` is not aligned to `width`, nothing
/// has changed.
pub open spec fn store(mem: Seq<u8>, addr: u64, width: nat, value: nat) -> Seq<u8> {
    if aligned(addr, width) {
        Seq::new(
            mem.len(),
            |i: int|
                if addr <= i < addr + width {
                    le_byte(value, (i - addr) as nat)
                } else {
                    mem[i]
                },
        )
    } else {
        mem
    }
}

/// Regroups a cell into four pairs of bytes through `bytemuck::cast`,
/// which reinterprets the eight bytes in place: the pairs follow one
/// another in the order of the bytes, and so do the bytes in each pair.
#[verifier::external_body]
fn as_pairs(cell: [u8; 8]) -> (pairs: [[u8; 2]; 4])
    ensures
        forall|i: int, j: int| 0 <= i < 4 && 0 <= j < 2 ==> #[trigger] pairs[i][j] == cell[2 * i + j],
{
    bytemuck::cast(cell)
}

/// Regroups a cell into two quadruples of bytes through `bytemuck::cast`,
/// which reinterprets the eight bytes in place: the second quadruple
/// follows the first, and the bytes in each keep their order.
#[verifier::external_body]
fn as_quads(cell: [u8; 8]) -> (quads: [[u8; 4]; 2])
    ensures
        forall|i: int, j: int| 0 <= i < 2 && 0 <= j < 4 ==> #[trigger] quads[i][j] == cell[4 * i + j],
{
    bytemuck::cast(cell)
}

/// Eight bytes of memory, the unit in which the region is held.
#[derive(Clone, Copy, Debug)]
pub struct Ramcell(pub [u8; 8]);

/// A region of physical memory.
pub struct Dram {
    cells: Vec<Ramcell>,
}

impl View for Dram {
    type V = Seq<u8>;

    closed spec fn view(&self) -> Seq<u8> {
        Seq::new((self.cells.len() * 8) as nat, |a: int| self.cells[a / 8].0[a % 8])
    }
}

impl Dram {
    #[verifier::type_invariant]
    spec fn inv(&self) -> bool {
        0 < self.cells.len() * 8 <= usize::MAX
    }

    /// A region of `size` bytes, all zero.
    pub fn new(size: usize) -> (dram: Self)
        requires
            size > 0,
            size % 8 == 0,
        ensures
            dram@ == Seq::new(size as nat, |a: int| 0u8),
    {
        let count = size / 8;
        let mut cells: Vec<Ramcell> = Vec::new();
        let mut filled: usize = 0;
        while filled < count
            invariant
                filled <= count,
                cells.len() == filled,
                forall|i: int, j: int| 0 <= i < filled && 0 <= j < 8 ==> #[trigger] cells[i].0[j] == 0,
            decreases count - filled,
        {
            cells.push(Ramcell([0u8; 8]));
            filled += 1;
        }
        let dram = Self { cells };
        assert(dram@ =~= Seq::new(size as nat, |a: int| 0u8));
        dram
    }

    /// A region of `size` bytes, all zero, or nothing where `size` is zero
    /// or no multiple of eight.
    pub fn try_new(size: usize) -> (made: Option<Self>)
        ensures
            made.is_some() == (size > 0 && size % 8 == 0),
            made matches Some(dram) ==> dram@ == Seq::new(size as nat, |a: int| 0u8),
    {
        if size > 0 && size % 8 == 0 {
            Some(Self::new(size))
        } else {
            None
        }
    }

    /// The number of bytes in the region.
    pub fn size(&self) -> (size: usize)
        ensures
            size == self@.len(),
            size > 0,
            size % 8 == 0,
    {
        proof {
            use_type_invariant(self);
        }
        self.cells.len() * 8
    }

    /// The cells of the region, in order: byte `a` of the region is byte
    /// `a % 8` of cell `a / 8`.
    pub fn cells(&self) -> (cells: &[Ramcell])
        ensures
            cells@.len() * 8 == self@.len(),
            forall|a: int| 0 <= a < self@.len() ==> #[trigger] self@[a] == cells@[a / 8].0[a % 8],
    {
        self.cells.as_slice()
    }

    /// The byte at `addr`. A byte is always aligned, so there is always one.
    pub fn read_u8(&self, addr: u64) -> (value: Option<u8>)
        requires
            addr < self@.len(),
        ensures
            value == Some(self@[addr as int]),
            load(self@, addr, 1) == Some(self@[addr as int] as nat),
    {
        proof {
            use_type_invariant(self);
            lemma_cell_of(addr);
            reveal_with_fuel(le_value_at, 2);
        }
        let ramcell: [u8; 8] = self.cells[(addr >> 3) as usize].0;
        Some(ramcell[(addr & 0b111) as usize])
    }

    /// The 16-bit value at `addr`, or nothing where `addr` is odd.
    pub fn read_u16(&self, addr: u64) -> (value: Option<u16>)
        requires
            aligned(addr, 2) ==> addr < self@.len(),
        ensures
            value.is_some() == aligned(addr, 2),
            value matches Some(v) ==> load(self@, addr, 2) == Some(v as nat),
    {
        proof {
            use_type_invariant(self);
            lemma_cell_of(addr);
            reveal_with_fuel(le_value_at, 3);
        }
        if (addr & 0b1) != 0 {
            return None;
        }
        let ramcell: [[u8; 2]; 4] = as_pairs(self.cells[(addr >> 3) as usize].0);
        let pair: [u8; 2] = ramcell[((addr >> 1) & 0b11) as usize];
        Some(pair[0] as u16 + 256 * (pair[1] as u16))
    }

    /// The 32-bit value at `addr`, or nothing where `addr` is no multiple of four.
    pub fn read_u32(&self, addr: u64) -> (value: Option<u32>)
        requires
            aligned(addr, 4) ==> addr < self@.len(),
        ensures
            value.is_some() == aligned(addr, 4),
            value matches Some(v) ==> load(self@, addr, 4) == Some(v as nat),
    {
        proof {
            use_type_invariant(self);
            lemma_cell_of(addr);
            reveal_with_fuel(le_value_at, 5);
        }
        if (addr & 0b11) != 0 {
            return None;
        }
        let ramcell: [[u8; 4]; 2] = as_quads(self.cells[(addr >> 3) as usize].0);
        let quad: [u8; 4] = ramcell[((addr >> 2) & 0b1) as usize];
        Some(
            quad[0] as u32 + 256 * (quad[1] as u32 + 256 * (quad[2] as u32 + 256 * (quad[3] as u32))),
        )
    }

    /// The 64-bit value at `addr`, or nothing where `addr` is no multiple of eight.
    pub fn read_u64(&self, addr: u64) -> (value: Option<u64>)
        requires
            aligned(addr, 8) ==> addr < self@.len(),
        ensures
            value.is_some() == aligned(addr, 8),
            value matches Some(v) ==> load(self@, addr, 8) == Some(v as nat),
    {
        proof {
            use_type_invariant(self);
            lemma_cell_of(addr);
            reveal_with_fuel(le_value_at, 9);
        }
        if (addr & 0b111) != 0 {
            return None;
        }
        let c: [u8; 8] = self.cells[(addr >> 3) as usize].0;
        Some(
            c[0] as u64 + 256 * (c[1] as u64 + 256 * (c[2] as u64 + 256 * (c[3] as u64 + 256 * (c[4] as u64
                + 256 * (c[5] as u64 + 256 * (c[6] as u64 + 256 * (c[7] as u64))))))),
        )
    }

    /// Replaces cell `cell` by `bytes`.
    fn set_cell(&mut self, cell: usize, bytes: [u8; 8])
        requires
            cell < old(self).cells.len(),
        ensures
            final(self)@ == Seq::new(
                old(self)@.len(),
                |a: int|
                    if a / 8 == cell {
                        bytes[a % 8]
                    } else {
                        old(self)@[a]
                    },
            ),
    {
        proof {
            use_type_invariant(&*self);
        }
        self.cells[cell] = Ramcell(bytes);
        assert(self@ =~= Seq::new(
            old(self)@.len(),
            |a: int|
                if a / 8 == cell {
                    bytes[a % 8]
                } else {
                    old(self)@[a]
                },
        ));
    }

    /// Writes the byte `val` at `addr`. A byte is always aligned, so the
    /// write always takes place.
    pub fn write_u8(&mut self, addr: u64, val: u8) -> (done: Option<()>)
        requires
            addr < old(self)@.len(),
        ensures
            done == Some(()),
            final(self)@ == old(self)@.update(addr as int, val),
            final(self)@ == store(old(self)@, addr, 1, val as nat),
    {
        proof {
            use_type_invariant(&*self);
            lemma_cell_of(addr);
            lemma_span_values();
        }
        let cell = (addr >> 3) as usize;
        let mut bytes: [u8; 8] = self.cells[cell].0;
        bytes[(addr & 0b111) as usize] = val;
        self.set_cell(cell, bytes);
        assert(self@ =~= old(self)@.update(addr as int, val));
        assert(self@ =~= store(old(self)@, addr, 1, val as nat));
        Some(())
    }

    /// Writes the 16-bit `val` at `addr`, or does nothing and says so
    /// where `addr` is odd.
    pub fn write_u16(&mut self, addr: u64, val: u16) -> (done: Option<()>)
        requires
            aligned(addr, 2) ==> addr < old(self)@.len(),
        ensures
            done.is_some() == aligned(addr, 2),
            final(self)@ == store(old(self)@, addr, 2, val as nat),
    {
        proof {
            use_type_invariant(&*self);
            lemma_cell_of(addr);
            lemma_bytes_of_u16(val);
        }
        if (addr & 0b1) != 0 {
            return None;
        }
        let cell = (addr >> 3) as usize;
        let at = 2 * (((addr >> 1) & 0b11) as usize);
        let mut bytes: [u8; 8] = self.cells[cell].0;
        bytes[at] = (val & 0xff) as u8;
        bytes[at + 1] = (val >> 8) as u8;
        self.set_cell(cell, bytes);
        assert(self@ =~= store(old(self)@, addr, 2, val as nat));
        Some(())
    }

    /// Writes the 32-bit `val` at `addr`, or does nothing and says so
    /// where `addr` is no multiple of four.
    pub fn write_u32(&mut self, addr: u64, val: u32) -> (done: Option<()>)
        requires
            aligned(addr, 4) ==> addr < old(self)@.len(),
        ensures
            done.is_some() == aligned(addr, 4),
            final(self)@ == store(old(self)@, addr, 4, val as nat),
    {
        proof {
            use_type_invariant(&*self);
            lemma_cell_of(addr);
            lemma_bytes_of_u32(val);
        }
        if (addr & 0b11) != 0 {
            return None;
        }
        let cell = (addr >> 3) as usize;
        let at = 4 * (((addr >> 2) & 0b1) as usize);
        let mut bytes: [u8; 8] = self.cells[cell].0;
        bytes[at] = (val & 0xff) as u8;
        bytes[at + 1] = ((val >> 8) & 0xff) as u8;
        bytes[at + 2] = ((val >> 16) & 0xff) as u8;
        bytes[at + 3] = (val >> 24) as u8;
        self.set_cell(cell, bytes);
        assert(self@ =~= store(old(self)@, addr, 4, val as nat));
        Some(())
    }

    /// Writes the 64-bit `val` at `addr`, or does nothing and says so
    /// where `addr` is no multiple of eight.
    pub fn write_u64(&mut self, addr: u64, val: u64) -> (done: Option<()>)
        requires
            aligned(addr, 8) ==> addr < old(self)@.len(),
        ensures
            done.is_some() == aligned(addr, 8),
            final(self)@ == store(old(self)@, addr, 8, val as nat),
    {
        proof {
            use_type_invariant(&*self);
            lemma_cell_of(addr);
            lemma_bytes_of_u64(val);
        }
        if (addr & 0b111) != 0 {
            return None;
        }
        let cell = (addr >> 3) as usize;
        let bytes: [u8; 8] = [
            (val & 0xff) as u8,
            ((val >> 8) & 0xff) as u8,
            ((val >> 16) & 0xff) as u8,
            ((val >> 24) & 0xff) as u8,
            ((val >> 32) & 0xff) as u8,
            ((val >> 40) & 0xff) as u8,
            ((val >> 48) & 0xff) as u8,
            (val >> 56) as u8,
        ];
        self.set_cell(cell, bytes);
        assert(self@ =~= store(old(self)@, addr, 8, val as nat));
        Some(())
    }
}

/// The spans of one to eight bytes.
pub proof fn lemma_span_values()
    ensures
        span(0) == 1,
        span(1) == 0x100,
        span(2) == 0x1_0000,
        span(3) == 0x100_0000,
        span(4) == 0x1_0000_0000,
        span(5) == 0x100_0000_0000,
        span(6) == 0x1_0000_0000_0000,
        span(7) == 0x100_0000_0000_0000,
        span(8) == 0x1_0000_0000_0000_0000,
{
    reveal_with_fuel(span, 9);
}

/// The bytes of a 16-bit value, by shifts and masks, are its little-endian bytes.
proof fn lemma_bytes_of_u16(val: u16)
    ensures
        (val & 0xff) as u8 == le_byte(val as nat, 0),
        (val >> 8) as u8 == le_byte(val as nat, 1),
{
    lemma_span_values();
    assert(val & 0xff == val % 256 && val >> 8 == val / 256 && val >> 8 < 256) by (bit_vector);
}

/// The bytes of a 32-bit value, by shifts and masks, are its little-endian bytes.
proof fn lemma_bytes_of_u32(val: u32)
    ensures
        (val & 0xff) as u8 == le_byte(val as nat, 0),
        ((val >> 8) & 0xff) as u8 == le_byte(val as nat, 1),
        ((val >> 16) & 0xff) as u8 == le_byte(val as nat, 2),
        (val >> 24) as u8 == le_byte(val as nat, 3),
{
    lemma_span_values();
    assert(val & 0xff == val % 256 && (val >> 8) & 0xff == (val / 256) % 256 && (val >> 16) & 0xff
        == (val / 65536) % 256 && val >> 24 == val / 16777216 && val >> 24 < 256) by (bit_vector);
}

/// The bytes of a 64-bit value, by shifts and masks, are its little-endian bytes.
proof fn lemma_bytes_of_u64(val: u64)
    ensures
        (val & 0xff) as u8 == le_byte(val as nat, 0),
        ((val >> 8) & 0xff) as u8 == le_byte(val as nat, 1),
        ((val >> 16) & 0xff) as u8 == le_byte(val as nat, 2),
        ((val >> 24) & 0xff) as u8 == le_byte(val as nat, 3),
        ((val >> 32) & 0xff) as u8 == le_byte(val as nat, 4),
        ((val >> 40) & 0xff) as u8 == le_byte(val as nat, 5),
        ((val >> 48) & 0xff) as u8 == le_byte(val as nat, 6),
        (val >> 56) as u8 == le_byte(val as nat, 7),
{
    lemma_span_values();
    assert(val & 0xff == val % 256 && (val >> 8) & 0xff == (val / 256) % 256 && (val >> 16) & 0xff
        == (val / 65536) % 256 && (val >> 24) & 0xff == (val / 16777216) % 256 && (val >> 32) & 0xff
        == (val / 4294967296) % 256 && (val >> 40) & 0xff == (val / 1099511627776) % 256 && (val
        >> 48) & 0xff == (val / 281474976710656) % 256 && val >> 56 == val / 72057594037927936
        && val >> 56 < 256) by (bit_vector);
}

/// The cell of an address is the address divided by eight, and the place
/// in the cell is the remainder.
pub proof fn lemma_cell_of(addr: u64)
    ensures
        addr >> 3 == addr / 8,
        addr & 0b111 == addr % 8,
        (addr >> 1) & 0b11 == (addr % 8) / 2,
        (addr >> 2) & 0b1 == (addr % 8) / 4,
        (addr & 0b1 == 0) == (addr % 2 == 0),
        (addr & 0b11 == 0) == (addr % 4 == 0),
        (addr & 0b111 == 0) == (addr % 8 == 0),
{
    assert(addr >> 3 == addr / 8 && addr & 0b111 == addr % 8 && (addr >> 1) & 0b11 == (addr % 8) / 2
        && (addr >> 2) & 0b1 == (addr % 8) / 4 && (addr & 0b1 == 0) == (addr % 2 == 0) && (addr
        & 0b11 == 0) == (addr % 4 == 0) && (addr & 0b111 == 0) == (addr % 8 == 0)) by (bit_vector);
}

/// A span is never zero.
pub proof fn lemma_span_positive(width: nat)
    ensures
        span(width) > 0,
    decreases width,
{
    if width > 0 {
        lemma_span_positive((width - 1) as nat);
    }
}

/// The bytes that a write left from byte `done` of the value on have, as a
/// little-endian value, what is left of `value` above its first `done` bytes.
proof fn lemma_written_tail(mem: Seq<u8>, addr: u64, width: nat, value: nat, done: nat)
    requires
        aligned(addr, width),
        addr + width <= mem.len(),
        value < span(width),
        done <= width,
    ensures
        le_value_at(store(mem, addr, width, value), addr + done, (width - done) as nat) == value
            / span(done),
    decreases width - done,
{
    lemma_span_positive(done);
    if done == width {
        vstd::arithmetic::div_mod::lemma_basic_div(value as int, span(done) as int);
    } else {
        lemma_written_tail(mem, addr, width, value, done + 1);
        let rest = value / span(done);
        assert(store(mem, addr, width, value)[addr + done] == (rest % 256) as u8);
        assert(span(done + 1) == 256 * span(done));
        assert(value / span(done + 1) == rest / 256) by {
            vstd::arithmetic::div_mod::lemma_div_denominator(value as int, span(done) as int, 256);
            assert(span(done) * 256 == 256 * span(done)) by (nonlinear_arith);
        }
    }
}

/// What was written at an aligned address is what a read of the same
/// width at that address then gives; the size of the memory is unchanged.
pub proof fn lemma_store_then_load(mem: Seq<u8>, addr: u64, width: nat, value: nat)
    requires
        aligned(addr, width),
        addr + width <= mem.len(),
        value < span(width),
    ensures
        load(store(mem, addr, width, value), addr, width) == Some(value),
        store(mem, addr, width, value).len() == mem.len(),
{
    lemma_written_tail(mem, addr, width, value, 0);
    assert(span(0) == 1);
}

/// At an address that is not aligned to the width, a read gives nothing
/// and a write leaves the memory as it was.
pub proof fn lemma_misaligned(mem: Seq<u8>, addr: u64, width: nat, value: nat)
    requires
        !aligned(addr, width),
    ensures
        load(mem, addr, width).is_none(),
        store(mem, addr, width, value) == mem,
{
}

} // verus!
