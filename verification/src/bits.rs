use vstd::prelude::*;
use bit_field::BitField;

verus! {

/// Bits `lo .. hi` of `x` (`lo < hi <= 64`), shifted down to bit 0: the
/// bits above `hi` are shifted out to the left, then everything is shifted
/// back down past `lo`.
pub open spec fn field64(x: u64, lo: u64, hi: u64) -> u64 {
    ((x << ((64 - hi) as u64)) >> ((64 - hi) as u64)) >> lo
}

/// Whether `v` fits into a field of `width` bits of a 64-bit word.
pub open spec fn fits64(v: u64, width: u64) -> bool {
    (v << ((64 - width) as u64)) >> ((64 - width) as u64) == v
}

/// `x` with bits `lo .. hi` (`lo < hi <= 64`) replaced by `v`.
pub open spec fn with_field64(x: u64, lo: u64, hi: u64, v: u64) -> u64 {
    (x & !(((0xffff_ffff_ffff_ffffu64 << ((64 - hi) as u64)) >> ((64 - hi) as u64)) >> lo << lo))
        | (v << lo)
}

/// Whether `v` fits into a field of `width` bits of a 16-bit word.
pub open spec fn fits16(v: u16, width: u16) -> bool {
    (v << ((16 - width) as u16)) >> ((16 - width) as u16) == v
}

/// `x` with bits `lo .. hi` (`lo < hi <= 16`) replaced by `v`.
pub open spec fn with_field16(x: u16, lo: u16, hi: u16, v: u16) -> u16 {
    (x & !(((0xffffu16 << ((16 - hi) as u16)) >> ((16 - hi) as u16)) >> lo << lo)) | (v << lo)
}

/// `BitField::get_bits` of the bit_field crate on a `u64`, for the range
/// `start..end`. The crate asserts `start < 64`, `end <= 64` and
/// `start <= end`, returns 0 for an empty range, and otherwise computes
/// `x << (64 - end) >> (64 - end) >> start`, which this contract claims.
#[verifier::external_body]
fn bit_field_get_bits_u64(x: u64, start: usize, end: usize) -> (r: u64)
    requires
        start < 64,
        end <= 64,
        start <= end,
    ensures
        start < end ==> r == field64(x, start as u64, end as u64),
        start == end ==> r == 0,
{
    x.get_bits(start..end)
}

/// `BitField::set_bits` of the bit_field crate on a `u64`, for the range
/// `start..end`. The crate asserts the range as `get_bits` does and that
/// `value` fits into it (for an empty range: that it is 0); it leaves an
/// empty range alone and otherwise stores
/// `(x & !(!0 << (64 - end) >> (64 - end) >> start << start)) | (value << start)`,
/// which this contract claims.
#[verifier::external_body]
fn bit_field_set_bits_u64(x: &mut u64, start: usize, end: usize, value: u64)
    requires
        start < 64,
        end <= 64,
        start <= end,
        start == end ==> value == 0,
        start < end ==> fits64(value, (end - start) as u64),
    ensures
        start < end ==> *final(x) == with_field64(*old(x), start as u64, end as u64, value),
        start == end ==> *final(x) == *old(x),
{
    x.set_bits(start..end, value);
}

/// `BitField::set_bit` of the bit_field crate on a `u16`. The crate
/// asserts `bit < 16`, then sets the bit (`x | 1 << bit`) or clears it
/// (`x & !(1 << bit)`), which this contract claims.
#[verifier::external_body]
fn bit_field_set_bit_u16(x: &mut u16, bit: usize, value: bool)
    requires
        bit < 16,
    ensures
        value ==> *final(x) == *old(x) | (1u16 << (bit as u16)),
        !value ==> *final(x) == *old(x) & !(1u16 << (bit as u16)),
{
    x.set_bit(bit, value);
}

/// `BitField::set_bits` of the bit_field crate on a `u16`, with the same
/// assertions and formula as for a `u64`, on 16-bit words.
#[verifier::external_body]
fn bit_field_set_bits_u16(x: &mut u16, start: usize, end: usize, value: u16)
    requires
        start < 16,
        end <= 16,
        start <= end,
        start == end ==> value == 0,
        start < end ==> fits16(value, (end - start) as u16),
    ensures
        start < end ==> *final(x) == with_field16(*old(x), start as u16, end as u16, value),
        start == end ==> *final(x) == *old(x),
{
    x.set_bits(start..end, value);
}

/// Bits `lo .. hi` of `x`, shifted down to bit 0.
pub fn get_field64(x: u64, lo: usize, hi: usize) -> (r: u64)
    requires
        lo < hi <= 64,
    ensures
        r == field64(x, lo as u64, hi as u64),
{
    bit_field_get_bits_u64(x, lo, hi)
}

/// Replaces bits `lo .. hi` of `x` by `v`, which must fit into them.
pub fn set_field64(x: &mut u64, lo: usize, hi: usize, v: u64)
    requires
        lo < hi <= 64,
        fits64(v, (hi - lo) as u64),
    ensures
        *final(x) == with_field64(*old(x), lo as u64, hi as u64, v),
{
    bit_field_set_bits_u64(x, lo, hi, v);
}

/// Sets or clears bit `bit` of a 16-bit word.
pub fn set_bit16(x: &mut u16, bit: usize, value: bool)
    requires
        bit < 16,
    ensures
        value ==> *final(x) == *old(x) | (1u16 << (bit as u16)),
        !value ==> *final(x) == *old(x) & !(1u16 << (bit as u16)),
{
    bit_field_set_bit_u16(x, bit, value);
}

/// Replaces bits `lo .. hi` of a 16-bit word by `v`, which must fit into them.
pub fn set_field16(x: &mut u16, lo: usize, hi: usize, v: u16)
    requires
        lo < hi <= 16,
        fits16(v, (hi - lo) as u16),
    ensures
        *final(x) == with_field16(*old(x), lo as u16, hi as u16, v),
{
    bit_field_set_bits_u16(x, lo, hi, v);
}

} // verus!
