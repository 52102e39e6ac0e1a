//! Little-endian primitive reads over byte slices.
//!
//! Every read returns `None` when the slice is too short: real files carry
//! truncated blocks and the reader tolerates them instead of failing.

use vstd::prelude::*;

use crate::text::{spec_unicode_string, string_from_chars, unicode_chars};

verus! {

/// Unsigned 16-bit little-endian value of `s[off..off + 2]`.
pub open spec fn le_u16(s: Seq<u8>, off: int) -> u16 {
    (s[off] as int + s[off + 1] as int * 0x100) as u16
}

/// Unsigned 32-bit little-endian value of `s[off..off + 4]`.
pub open spec fn le_u32(s: Seq<u8>, off: int) -> u32 {
    (s[off] as int + s[off + 1] as int * 0x100 + s[off + 2] as int * 0x1_0000 + s[off + 3] as int
        * 0x100_0000) as u32
}

/// Two's complement reading of a 32-bit word.
pub open spec fn i32_of_bits(u: u32) -> i32 {
    if u < 0x8000_0000 {
        u as i32
    } else {
        (u as int - 0x1_0000_0000) as i32
    }
}

/// Unsigned 64-bit little-endian value of `s[off..off + 8]`.
pub open spec fn le_u64(s: Seq<u8>, off: int) -> u64 {
    (le_u32(s, off) as int + le_u32(s, off + 4) as int * 0x1_0000_0000) as u64
}

/// `true` when `width` bytes starting at `off` lie inside `s`.
pub open spec fn fits(s: Seq<u8>, off: int, width: int) -> bool {
    0 <= off && off + width <= s.len()
}

pub open spec fn spec_get_u16(s: Seq<u8>, off: int) -> Option<u16> {
    if fits(s, off, 2) {
        Some(le_u16(s, off))
    } else {
        None
    }
}

pub open spec fn spec_get_u32(s: Seq<u8>, off: int) -> Option<u32> {
    if fits(s, off, 4) {
        Some(le_u32(s, off))
    } else {
        None
    }
}

pub open spec fn spec_get_i32(s: Seq<u8>, off: int) -> Option<i32> {
    if fits(s, off, 4) {
        Some(i32_of_bits(le_u32(s, off)))
    } else {
        None
    }
}

pub open spec fn spec_get_u64(s: Seq<u8>, off: int) -> Option<u64> {
    if fits(s, off, 8) {
        Some(le_u64(s, off))
    } else {
        None
    }
}

/// Reads a little-endian `u16` at `offset`.
pub fn get_u16(data: &[u8], offset: usize) -> (r: Option<u16>)
    ensures
        r == spec_get_u16(data@, offset as int),
{
    if offset > data.len() || data.len() - offset < 2 {
        return None;
    }
    let lo = data[offset] as u16;
    let hi = data[offset + 1] as u16;
    Some(lo + hi * 0x100)
}

/// Reads a little-endian `u32` at `offset`.
pub fn get_u32(data: &[u8], offset: usize) -> (r: Option<u32>)
    ensures
        r == spec_get_u32(data@, offset as int),
{
    if offset > data.len() || data.len() - offset < 4 {
        return None;
    }
    let b0 = data[offset] as u32;
    let b1 = data[offset + 1] as u32;
    let b2 = data[offset + 2] as u32;
    let b3 = data[offset + 3] as u32;
    Some(b0 + b1 * 0x100 + b2 * 0x1_0000 + b3 * 0x100_0000)
}

/// Reads a little-endian two's complement `i32` at `offset`.
pub fn get_i32(data: &[u8], offset: usize) -> (r: Option<i32>)
    ensures
        r == spec_get_i32(data@, offset as int),
{
    match get_u32(data, offset) {
        None => None,
        Some(u) => {
            if u < 0x8000_0000 {
                Some(u as i32)
            } else {
                Some(((u - 0x8000_0000) as i32) - 0x7FFF_FFFF - 1)
            }
        },
    }
}

/// Reads a little-endian `u64` at `offset` (the raw bits of the 8-byte
/// floating-point fields: work, cost, units).
pub fn get_u64(data: &[u8], offset: usize) -> (r: Option<u64>)
    ensures
        r == spec_get_u64(data@, offset as int),
{
    if offset > data.len() || data.len() - offset < 8 {
        return None;
    }
    let lo = get_u32(data, offset).unwrap();
    let hi = get_u32(data, offset + 4).unwrap();
    Some(lo as u64 + hi as u64 * 0x1_0000_0000)
}

} // verus!

verus! {

/// A copy of `data[from..to]`.
pub fn copy_range(data: &[u8], from: usize, to: usize) -> (r: Vec<u8>)
    requires
        from <= to <= data@.len(),
    ensures
        r@ == data@.subrange(from as int, to as int),
{
    vstd::slice::slice_to_vec(vstd::slice::slice_subrange(data, from, to))
}

/// `true` when the sequence never decreases.
pub open spec fn sorted_u32(s: Seq<u32>) -> bool {
    forall|i: int, j: int| 0 <= i <= j < s.len() ==> s[i] <= s[j]
}

/// Sorts the values in ascending order with `slice::sort_unstable`; the
/// result holds the same values, each as many times as before.
#[verifier::external_body]
pub(crate) fn sort_u32(v: &mut Vec<u32>)
    ensures
        final(v)@.to_multiset() == old(v)@.to_multiset(),
        sorted_u32(final(v)@),
{
    v.sort_unstable();
}

/// String stored as UTF-16LE at `offset`, ended by a zero unit or by the end
/// of the slice.
pub fn get_unicode_string(data: &[u8], offset: usize) -> (r: Option<String>)
    ensures
        r matches Some(s) ==> spec_unicode_string(data@, offset as int) == Some(s@),
        r is None ==> spec_unicode_string(data@, offset as int) is None,
{
    match unicode_chars(data, offset) {
        Some(chars) => Some(string_from_chars(chars.as_slice())),
        None => None,
    }
}

} // verus!
