//! Single bits and bit ranges of a 64-bit word: what they are, how they are
//! read and written, and what a write leaves alone.

use vstd::prelude::*;

verus! {

/// Bit `index` of `word`.
pub open spec fn has_bit(word: u64, index: u64) -> bool {
    (word >> index) & 1 == 1
}

/// `word` with bit `index` set to `value`.
pub open spec fn with_bit(word: u64, index: u64, value: bool) -> u64 {
    if value {
        word | (1u64 << index)
    } else {
        word & !(1u64 << index)
    }
}

/// The word whose bits `lsb ..= msb` are set and no others.
pub open spec fn field_mask(msb: u64, lsb: u64) -> u64 {
    (u64::MAX >> ((63 - msb) as u64)) & (u64::MAX << lsb)
}

/// The bits `lsb ..= msb` of `word`, moved down to bit 0.
pub open spec fn field_of(word: u64, msb: u64, lsb: u64) -> u64 {
    (word & field_mask(msb, lsb)) >> lsb
}

/// `word` with its bits `lsb ..= msb` replaced by the low bits of `value`.
pub open spec fn with_field(word: u64, msb: u64, lsb: u64, value: u64) -> u64 {
    (word & !field_mask(msb, lsb)) | ((value << lsb) & field_mask(msb, lsb))
}

/// Reads one bit through `bitfield::Bit::bit`, which for a `u64` extracts
/// the one-bit range at `index` and reports whether it is non-zero.
#[verifier::external_body]
pub(crate) fn bit(word: u64, index: usize) -> (set: bool)
    requires
        index < 64,
    ensures
        set == has_bit(word, index as u64),
{
    bitfield::Bit::bit(&word, index)
}

/// Writes one bit through `bitfield::BitMut::set_bit`, which for a `u64`
/// replaces the one-bit range at `index` and touches no other bit.
#[verifier::external_body]
pub(crate) fn set_bit(word: &mut u64, index: usize, value: bool)
    requires
        index < 64,
    ensures
        *final(word) == with_bit(*old(word), index as u64, value),
{
    bitfield::BitMut::set_bit(word, index, value)
}

/// Reads a range of bits through `bitfield::BitRange::bit_range`, which for
/// a `u64` shifts the bits above `msb` out and the rest down to bit 0.
#[verifier::external_body]
pub(crate) fn bit_range(word: u64, msb: usize, lsb: usize) -> (field: u64)
    requires
        lsb <= msb < 64,
    ensures
        field == field_of(word, msb as u64, lsb as u64),
{
    bitfield::BitRange::<u64>::bit_range(&word, msb, lsb)
}

/// Writes a range of bits through `bitfield::BitRangeMut::set_bit_range`,
/// which for a `u64` clears the bits `lsb ..= msb` and puts there the low
/// bits of `value`, shifted up by `lsb`.
#[verifier::external_body]
pub(crate) fn set_bit_range(word: &mut u64, msb: usize, lsb: usize, value: u64)
    requires
        lsb <= msb < 64,
    ensures
        *final(word) == with_field(*old(word), msb as u64, lsb as u64, value),
{
    bitfield::BitRangeMut::<u64>::set_bit_range(word, msb, lsb, value)
}

/// Writing a bit sets that bit and no other.
pub proof fn lemma_with_bit(word: u64, index: u64, value: bool, other: u64)
    requires
        index < 64,
        other < 64,
    ensures
        has_bit(with_bit(word, index, value), index) == value,
        other != index ==> has_bit(with_bit(word, index, value), other) == has_bit(word, other),
{
    assert(has_bit(word | (1u64 << index), index)) by (bit_vector)
        requires
            index < 64,
    ;
    assert(!has_bit(word & !(1u64 << index), index)) by (bit_vector)
        requires
            index < 64,
    ;
    assert(other != index ==> has_bit(word | (1u64 << index), other) == has_bit(word, other))
        by (bit_vector)
        requires
            index < 64,
            other < 64,
    ;
    assert(other != index ==> has_bit(word & !(1u64 << index), other) == has_bit(word, other))
        by (bit_vector)
        requires
            index < 64,
            other < 64,
    ;
}

/// Writing a bit outside a field leaves the field as it was.
pub proof fn lemma_with_bit_keeps_field(word: u64, index: u64, value: bool, msb: u64, lsb: u64)
    requires
        lsb <= msb < 64,
        index < lsb || msb < index,
        index < 64,
    ensures
        field_of(with_bit(word, index, value), msb, lsb) == field_of(word, msb, lsb),
{
    assert(field_of(word | (1u64 << index), msb, lsb) == field_of(word, msb, lsb)) by (bit_vector)
        requires
            lsb <= msb < 64,
            index < lsb || msb < index,
            index < 64,
    ;
    assert(field_of(word & !(1u64 << index), msb, lsb) == field_of(word, msb, lsb))
        by (bit_vector)
        requires
            lsb <= msb < 64,
            index < lsb || msb < index,
            index < 64,
    ;
}

/// Writing a field stores the value's low bits there and leaves every bit
/// outside the field as it was.
pub proof fn lemma_with_field(word: u64, msb: u64, lsb: u64, value: u64, other: u64)
    requires
        lsb <= msb < 64,
        other < 64,
    ensures
        field_of(with_field(word, msb, lsb, value), msb, lsb) == field_of(value << lsb, msb, lsb),
        other < lsb || msb < other ==> has_bit(with_field(word, msb, lsb, value), other) == has_bit(
            word,
            other,
        ),
{
    assert(field_of(with_field(word, msb, lsb, value), msb, lsb) == field_of(
        value << lsb,
        msb,
        lsb,
    )) by (bit_vector)
        requires
            lsb <= msb < 64,
    ;
    assert(other < lsb || msb < other ==> has_bit(with_field(word, msb, lsb, value), other)
        == has_bit(word, other)) by (bit_vector)
        requires
            lsb <= msb < 64,
            other < 64,
    ;
}

} // verus!
