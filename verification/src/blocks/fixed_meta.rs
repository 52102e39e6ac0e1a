//! FixedMeta: metadata of the fixed-size data blocks (FixedData).
//!
//! A 16-byte header (magic, unknown, item count, unknown) followed by items
//! of a known size. The declared item count is not trusted: the count is
//! recomputed from the stream length. Bytes 4..8 of each item hold the
//! offset of the matching FixedData item.

use vstd::prelude::*;

use super::var_meta::BLOCK_MAGIC;
use crate::error::{is_corrupt, MppError};
use crate::text::{hex_u32, push_hex_u32};
use crate::util::{copy_range, get_i32, get_u32, le_u32, spec_get_i32, spec_get_u32};

verus! {

const HEADER_SIZE: usize = 16;

/// Items of a FixedMeta block.
#[derive(Debug)]
pub struct FixedMeta {
    items: Vec<Vec<u8>>,
}

impl View for FixedMeta {
    type V = Seq<Seq<u8>>;

    closed spec fn view(&self) -> Seq<Seq<u8>> {
        self.items@.map_values(|v: Vec<u8>| v@)
    }
}

/// Items of `size` bytes that follow the header, as many as fit.
pub open spec fn fixed_meta_items(data: Seq<u8>, size: int) -> Seq<Seq<u8>> {
    Seq::new(
        ((data.len() - 16) / size) as nat,
        |i: int| data.subrange(16 + i * size, 16 + (i + 1) * size),
    )
}

/// Outcome of parsing a FixedMeta block with items of `size` bytes: the
/// items, or the message of the error.
pub open spec fn fixed_meta_outcome(data: Seq<u8>, size: int) -> Result<Seq<Seq<u8>>, Seq<char>> {
    if data.len() < 4 {
        Err("FixedMeta más corto que el header"@)
    } else if le_u32(data, 0) != BLOCK_MAGIC {
        Err("magic FixedMeta inválido: "@ + hex_u32(le_u32(data, 0)))
    } else if size == 0 || data.len() < 16 {
        Err("FixedMeta vacío o item_size 0"@)
    } else {
        Ok(fixed_meta_items(data, size))
    }
}

/// A FixedMeta block with the block magic, at least its 16-byte header and
/// a non-zero item size holds the items of that size that follow the
/// header, as many as fit whatever the header declares; each item is a
/// copy of its bytes and its data offset is the `i32` at its byte 4.
pub proof fn fixed_meta_items_follow_header(data: Seq<u8>, size: int, i: int)
    requires
        size > 0,
        data.len() >= 16,
        le_u32(data, 0) == 0xFADF_ADBA,
    ensures
        fixed_meta_outcome(data, size) matches Ok(items) && {
            &&& items.len() * size <= data.len() - 16 < (items.len() + 1) * size
            &&& 0 <= i < items.len() ==> items[i].len() == size && (forall|j: int|
                0 <= j < size ==> #[trigger] items[i][j] == data[16 + i * size + j])
        },
{
    let n = (data.len() - 16) / size;
    vstd::arithmetic::div_mod::lemma_fundamental_div_mod(data.len() - 16, size);
    assert(n * size <= data.len() - 16 < (n + 1) * size) by (nonlinear_arith)
        requires
            data.len() - 16 == size * n + (data.len() - 16) % size,
            0 <= (data.len() - 16) % size < size,
    ;
    if 0 <= i < n {
        assert(16 + (i + 1) * size <= data.len()) by (nonlinear_arith)
            requires
                0 <= i < n,
                n * size <= data.len() - 16,
                size > 0,
        ;
        assert(16 + (i + 1) * size == 16 + i * size + size) by (nonlinear_arith);
    }
}

/// Item size picked among `candidates` (from index `k` on), given the
/// bytes available after the header, the item count of a sibling block and
/// the declared count: the first size that divides the available bytes
/// exactly and yields the sibling's count wins; otherwise the exact divisor
/// whose declared total comes closest to the available bytes from below;
/// otherwise `best`.
pub open spec fn pick_item_size(
    candidates: Seq<usize>,
    k: int,
    available: int,
    other_count: int,
    declared: int,
    best: usize,
    distance: int,
) -> usize
    decreases candidates.len() - k,
{
    if k >= candidates.len() || k < 0 {
        best
    } else {
        let t = candidates[k];
        if t == 0 || available % (t as int) != 0 {
            pick_item_size(candidates, k + 1, available, other_count, declared, best, distance)
        } else if available / (t as int) == other_count {
            t
        } else {
            let d = declared * t - available;
            if d <= 0 && d > distance {
                pick_item_size(candidates, k + 1, available, other_count, declared, t, d)
            } else {
                pick_item_size(candidates, k + 1, available, other_count, declared, best, distance)
            }
        }
    }
}

/// The item size that [`FixedMeta::parse_with_candidate_sizes`] uses.
pub open spec fn candidate_item_size(data: Seq<u8>, other_count: int, candidates: Seq<usize>) -> usize {
    let declared: int = match spec_get_u32(data, 8) {
        Some(c) => c as int,
        None => 0,
    };
    let available: int = if data.len() >= 16 {
        data.len() - 16
    } else {
        0
    };
    pick_item_size(candidates, 0, available, other_count, declared, candidates[0], i64::MIN as int)
}

impl FixedMeta {
    /// Parses a FixedMeta block whose items have `item_size` bytes.
    pub fn parse(data: &[u8], item_size: usize, context: &str) -> (r: Result<FixedMeta, MppError>)
        ensures
            match r {
                Ok(fm) => fixed_meta_outcome(data@, item_size as int) == Ok::<
                    Seq<Seq<u8>>,
                    Seq<char>,
                >(fm@),
                Err(e) => fixed_meta_outcome(data@, item_size as int) is Err && is_corrupt(
                    e,
                    context@,
                    fixed_meta_outcome(data@, item_size as int)->Err_0,
                ),
            },
    {
        let magic = match get_u32(data, 0) {
            Some(m) => m,
            None => {
                return Err(
                    MppError::corrupt(context, "FixedMeta más corto que el header".to_owned()),
                );
            },
        };
        if magic != BLOCK_MAGIC {
            let mut detail = "magic FixedMeta inválido: ".to_owned();
            push_hex_u32(&mut detail, magic);
            return Err(MppError::corrupt(context, detail));
        }
        if item_size == 0 || data.len() < HEADER_SIZE {
            return Err(MppError::corrupt(context, "FixedMeta vacío o item_size 0".to_owned()));
        }
        let data_len = data.len();
        let adjusted = (data_len - HEADER_SIZE) / item_size;
        let mut items: Vec<Vec<u8>> = Vec::new();
        let mut i: usize = 0;
        let mut pos: usize = HEADER_SIZE;
        while i < adjusted
            invariant
                item_size > 0,
                data@.len() >= 16,
                data_len == data@.len(),
                adjusted == (data@.len() - 16) / (item_size as int),
                i <= adjusted,
                pos == 16 + i * item_size,
                items@.map_values(|v: Vec<u8>| v@) == fixed_meta_items(data@, item_size as int).take(
                    i as int,
                ),
            decreases adjusted - i,
        {
            assert(pos + item_size <= data@.len()) by (nonlinear_arith)
                requires
                    item_size > 0,
                    data@.len() >= 16,
                    adjusted == (data@.len() - 16) / (item_size as int),
                    i < adjusted,
                    pos == 16 + i * item_size,
            ;
            assert(pos + item_size == 16 + (i + 1) * item_size) by (nonlinear_arith)
                requires
                    pos == 16 + i * item_size,
            ;
            let item = copy_range(data, pos, pos + item_size);
            let ghost items_seq = fixed_meta_items(data@, item_size as int);
            assert(items_seq.len() == adjusted);
            assert(item@ == items_seq[i as int]);
            let ghost before = items@.map_values(|v: Vec<u8>| v@);
            items.push(item);
            assert(items@.map_values(|v: Vec<u8>| v@) =~= before.push(item@));
            assert(items_seq.take(i + 1) =~= items_seq.take(i as int).push(items_seq[i as int]));
            pos = pos + item_size;
            i = i + 1;
            assert(items@.map_values(|v: Vec<u8>| v@) =~= fixed_meta_items(
                data@,
                item_size as int,
            ).take(i as int));
        }
        assert(fixed_meta_items(data@, item_size as int).take(adjusted as int) =~= fixed_meta_items(
            data@,
            item_size as int,
        ));
        Ok(FixedMeta { items })
    }

    /// Parses a FixedMeta block whose item size is one of `candidates`,
    /// chosen by [`candidate_item_size`]; `other_block_count` is the item
    /// count of a sibling block already parsed.
    pub fn parse_with_candidate_sizes(
        data: &[u8],
        other_block_count: usize,
        candidates: &[usize],
        context: &str,
    ) -> (r: Result<FixedMeta, MppError>)
        requires
            candidates@.len() > 0,
        ensures
            ({
                let size = candidate_item_size(data@, other_block_count as int, candidates@) as int;
                match r {
                    Ok(fm) => fixed_meta_outcome(data@, size) == Ok::<Seq<Seq<u8>>, Seq<char>>(
                        fm@,
                    ),
                    Err(e) => fixed_meta_outcome(data@, size) is Err && is_corrupt(
                        e,
                        context@,
                        fixed_meta_outcome(data@, size)->Err_0,
                    ),
                }
            }),
    {
        let item_count: i64 = match get_u32(data, 8) {
            Some(c) => c as i64,
            None => 0,
        };
        let available: usize = if data.len() >= HEADER_SIZE {
            data.len() - HEADER_SIZE
        } else {
            0
        };
        let mut item_size = candidates[0];
        let mut distance: i128 = i64::MIN as i128;
        let mut k: usize = 0;
        while k < candidates.len()
            invariant
                k <= candidates@.len(),
                0 <= item_count <= u32::MAX,
                i64::MIN <= distance <= 0,
                item_count == (match spec_get_u32(data@, 8) {
                    Some(c) => c as int,
                    None => 0,
                }),
                available == (if data@.len() >= 16 {
                    data@.len() - 16
                } else {
                    0
                }),
                pick_item_size(
                    candidates@,
                    k as int,
                    available as int,
                    other_block_count as int,
                    item_count as int,
                    item_size,
                    distance as int,
                ) == candidate_item_size(data@, other_block_count as int, candidates@),
            ensures
                item_size == candidate_item_size(data@, other_block_count as int, candidates@),
            decreases candidates@.len() - k,
        {
            let test = candidates[k];
            if test == 0 || available % test != 0 {
                k = k + 1;
                continue;
            }
            if available / test == other_block_count {
                item_size = test;
                break;
            }
            assert(item_count * (test as int) <= 0x1_0000_0000 * 0x1_0000_0000_0000_0000)
                by (nonlinear_arith)
                requires
                    0 <= item_count <= u32::MAX,
                    0 <= test <= usize::MAX,
            ;
            let test_distance: i128 = (item_count as i128) * (test as i128) - (available as i128);
            if test_distance <= 0 && test_distance > distance {
                item_size = test;
                distance = test_distance;
            }
            k = k + 1;
        }
        Self::parse(data, item_size, context)
    }

    /// Number of items.
    pub fn item_count(&self) -> (r: usize)
        ensures
            r == self@.len(),
    {
        self.items.len()
    }

    /// Bytes of the item `index`.
    pub fn item(&self, index: usize) -> (r: Option<&[u8]>)
        ensures
            match r {
                Some(b) => index < self@.len() && b@ == self@[index as int],
                None => index >= self@.len(),
            },
    {
        if index < self.items.len() {
            Some(self.items[index].as_slice())
        } else {
            None
        }
    }

    /// Offset, within the FixedData block, of the data of the item `index`:
    /// the `i32` at bytes 4..8 of the item.
    pub fn data_offset(&self, index: usize) -> (r: Option<i32>)
        ensures
            r == (if index < self@.len() {
                spec_get_i32(self@[index as int], 4)
            } else {
                None
            }),
    {
        match self.item(index) {
            Some(b) => get_i32(b, 4),
            None => None,
        }
    }
}

} // verus!
