//! FixedData: blocks of bounded size addressed by a FixedMeta.
//!
//! The size of each item is the distance to the offset of the next item
//! (the last one runs to the end of the stream), clamped so that offsets out
//! of sequence, overlapping items and absurd sizes are tolerated.

use vstd::prelude::*;

use super::fixed_meta::FixedMeta;
use crate::util::{copy_range, spec_get_i32};

verus! {

/// Items of a FixedData block; `None` for the items that could not be read.
#[derive(Debug)]
pub struct FixedData {
    items: Vec<Option<Vec<u8>>>,
}

/// View of an optional byte vector.
pub open spec fn opt_bytes(o: Option<Vec<u8>>) -> Option<Seq<u8>> {
    match o {
        Some(v) => Some(v@),
        None => None,
    }
}

impl View for FixedData {
    type V = Seq<Option<Seq<u8>>>;

    closed spec fn view(&self) -> Seq<Option<Seq<u8>>> {
        self.items@.map_values(|o: Option<Vec<u8>>| opt_bytes(o))
    }
}

/// Data offset recorded in the metadata item `index` (bytes 4..8).
pub open spec fn meta_offset(meta: Seq<Seq<u8>>, index: int) -> Option<i32> {
    if 0 <= index < meta.len() {
        spec_get_i32(meta[index], 4)
    } else {
        None
    }
}

/// Item `index` of a FixedData block addressed by `meta`. Its offset must
/// lie within the data; its size is the distance to the next item's offset
/// (to the end of the data for the last item; unreadable when the next
/// offset is missing). A negative size or one that runs past the end is
/// replaced by the bytes available, capped by `max` when `max` is not 0;
/// a size above a non-zero `max` is cut to `max`. Empty items are `None`.
pub open spec fn fixed_data_item(meta: Seq<Seq<u8>>, data: Seq<u8>, max: int, index: int) -> Option<
    Seq<u8>,
> {
    match meta_offset(meta, index) {
        None => None,
        Some(off) => {
            if off < 0 || off > data.len() {
                None
            } else {
                let available = data.len() - off;
                let natural: Option<int> = if index + 1 == meta.len() {
                    Some(available)
                } else {
                    match meta_offset(meta, index + 1) {
                        Some(next) => Some(next - off),
                        None => None,
                    }
                };
                match natural {
                    None => None,
                    Some(raw) => {
                        let clamped = if raw < 0 || raw > available {
                            if max == 0 {
                                available
                            } else if max < available {
                                max
                            } else {
                                available
                            }
                        } else {
                            raw
                        };
                        let size = if max != 0 && clamped > max {
                            max
                        } else {
                            clamped
                        };
                        if size > 0 {
                            Some(data.subrange(off as int, off + size))
                        } else {
                            None
                        }
                    },
                }
            }
        },
    }
}

/// Item of a block with forced item size: `size` bytes (fewer at the end of
/// the data) at the offset recorded in the metadata.
pub open spec fn sized_item(meta: Seq<Seq<u8>>, data: Seq<u8>, size: int, index: int) -> Option<
    Seq<u8>,
> {
    match meta_offset(meta, index) {
        None => None,
        Some(off) => {
            if off < 0 || off > data.len() {
                None
            } else {
                let n = if size < data.len() - off {
                    size
                } else {
                    data.len() - off
                };
                if n > 0 {
                    Some(data.subrange(off as int, off + n))
                } else {
                    None
                }
            }
        },
    }
}

/// Populated items with their index, in index order.
pub open spec fn populated(items: Seq<Option<Seq<u8>>>) -> Seq<(int, Seq<u8>)>
    decreases items.len(),
{
    if items.len() == 0 {
        Seq::empty()
    } else {
        let rest = populated(items.drop_last());
        match items.last() {
            Some(b) => rest.push(((items.len() - 1) as int, b)),
            None => rest,
        }
    }
}

impl FixedData {
    /// Reads the items addressed by `meta`; `max_expected_size` 0 means "no
    /// limit".
    pub fn parse(meta: &FixedMeta, data: &[u8], max_expected_size: usize) -> (r: FixedData)
        ensures
            r@.len() == meta@.len(),
            forall|i: int|
                0 <= i < r@.len() ==> #[trigger] r@[i] == fixed_data_item(
                    meta@,
                    data@,
                    max_expected_size as int,
                    i,
                ),
    {
        let item_count = meta.item_count();
        let data_len = data.len();
        let mut items: Vec<Option<Vec<u8>>> = Vec::new();
        let mut index: usize = 0;
        while index < item_count
            invariant
                item_count == meta@.len(),
                data_len == data@.len(),
                index <= item_count,
                items@.len() == index,
                forall|i: int|
                    0 <= i < index ==> opt_bytes(#[trigger] items@[i]) == fixed_data_item(
                        meta@,
                        data@,
                        max_expected_size as int,
                        i,
                    ),
            decreases item_count - index,
        {
            let slot = Self::read_item(meta, data, max_expected_size, index);
            items.push(slot);
            index = index + 1;
        }
        let r = FixedData { items };
        assert forall|i: int| 0 <= i < r@.len() implies #[trigger] r@[i] == fixed_data_item(
            meta@,
            data@,
            max_expected_size as int,
            i,
        ) by {
            assert(opt_bytes(r.items@[i]) == fixed_data_item(
                meta@,
                data@,
                max_expected_size as int,
                i,
            ));
        }
        r
    }

    fn read_item(meta: &FixedMeta, data: &[u8], max_expected_size: usize, index: usize) -> (r:
        Option<Vec<u8>>)
        requires
            index < meta@.len(),
        ensures
            opt_bytes(r) == fixed_data_item(meta@, data@, max_expected_size as int, index as int),
    {
        let item_count = meta.item_count();
        let item_offset = match meta.data_offset(index) {
            Some(o) => o,
            None => return None,
        };
        if item_offset < 0 || item_offset as usize > data.len() {
            return None;
        }
        let off = item_offset as usize;
        let available = data.len() - off;
        let clamp: usize = if max_expected_size == 0 {
            available
        } else if max_expected_size < available {
            max_expected_size
        } else {
            available
        };
        let mut size: usize = if index + 1 == item_count {
            available
        } else {
            match meta.data_offset(index + 1) {
                Some(next) => {
                    let raw: i64 = next as i64 - item_offset as i64;
                    if raw < 0 || raw as u64 > available as u64 {
                        clamp
                    } else {
                        raw as usize
                    }
                },
                None => return None,
            }
        };
        if max_expected_size != 0 && size > max_expected_size {
            size = max_expected_size;
        }
        if size > 0 {
            Some(copy_range(data, off, off + size))
        } else {
            None
        }
    }

    /// Reads items of exactly `item_size` bytes (fewer at the end of the
    /// data) at the offsets recorded in `meta`.
    pub fn parse_with_item_size(meta: &FixedMeta, data: &[u8], item_size: usize) -> (r: FixedData)
        ensures
            r@.len() == meta@.len(),
            forall|i: int|
                0 <= i < r@.len() ==> #[trigger] r@[i] == sized_item(
                    meta@,
                    data@,
                    item_size as int,
                    i,
                ),
    {
        let item_count = meta.item_count();
        let data_len = data.len();
        let mut items: Vec<Option<Vec<u8>>> = Vec::new();
        let mut index: usize = 0;
        while index < item_count
            invariant
                item_count == meta@.len(),
                data_len == data@.len(),
                index <= item_count,
                items@.len() == index,
                forall|i: int|
                    0 <= i < index ==> opt_bytes(#[trigger] items@[i]) == sized_item(
                        meta@,
                        data@,
                        item_size as int,
                        i,
                    ),
            decreases item_count - index,
        {
            let slot = match meta.data_offset(index) {
                None => None,
                Some(offset) => {
                    if offset < 0 || offset as usize > data_len {
                        None
                    } else {
                        let off = offset as usize;
                        let size = if item_size < data_len - off {
                            item_size
                        } else {
                            data_len - off
                        };
                        if size > 0 {
                            Some(copy_range(data, off, off + size))
                        } else {
                            None
                        }
                    }
                },
            };
            items.push(slot);
            index = index + 1;
        }
        let r = FixedData { items };
        assert forall|i: int| 0 <= i < r@.len() implies #[trigger] r@[i] == sized_item(
            meta@,
            data@,
            item_size as int,
            i,
        ) by {
            assert(opt_bytes(r.items@[i]) == sized_item(meta@, data@, item_size as int, i));
        }
        r
    }

    /// Consecutive items of `item_size` bytes, without metadata; a trailing
    /// partial item is dropped.
    pub fn parse_sequential(data: &[u8], item_size: usize) -> (r: FixedData)
        requires
            item_size > 0,
        ensures
            r@.len() == data@.len() / (item_size as nat),
            forall|i: int|
                0 <= i < r@.len() ==> #[trigger] r@[i] == Some(
                    data@.subrange(i * item_size, (i + 1) * item_size),
                ),
    {
        let data_len = data.len();
        let count = data_len / item_size;
        let mut items: Vec<Option<Vec<u8>>> = Vec::new();
        let mut index: usize = 0;
        let mut pos: usize = 0;
        while index < count
            invariant
                item_size > 0,
                data_len == data@.len(),
                count == data_len / item_size,
                index <= count,
                pos == index * item_size,
                items@.len() == index,
                forall|i: int|
                    0 <= i < index ==> opt_bytes(#[trigger] items@[i]) == Some(
                        data@.subrange(i * item_size, (i + 1) * item_size),
                    ),
            decreases count - index,
        {
            assert(pos + item_size <= data_len) by (nonlinear_arith)
                requires
                    item_size > 0,
                    count == data_len / item_size,
                    index < count,
                    pos == index * item_size,
            ;
            assert(pos + item_size == (index + 1) * item_size) by (nonlinear_arith)
                requires
                    pos == index * item_size,
            ;
            items.push(Some(copy_range(data, pos, pos + item_size)));
            pos = pos + item_size;
            index = index + 1;
        }
        let r = FixedData { items };
        assert forall|i: int| 0 <= i < r@.len() implies #[trigger] r@[i] == Some(
            data@.subrange(i * item_size, (i + 1) * item_size),
        ) by {
            assert(opt_bytes(r.items@[i]) == Some(
                data@.subrange(i * item_size, (i + 1) * item_size),
            ));
        }
        r
    }

    /// Number of item slots.
    pub fn item_count(&self) -> (r: usize)
        ensures
            r == self@.len(),
    {
        self.items.len()
    }

    /// Bytes of the item `index`, when it was readable.
    pub fn item(&self, index: usize) -> (r: Option<&[u8]>)
        ensures
            match r {
                Some(b) => index < self@.len() && self@[index as int] == Some(b@),
                None => index >= self@.len() || self@[index as int] is None,
            },
    {
        if index < self.items.len() {
            match &self.items[index] {
                Some(v) => Some(v.as_slice()),
                None => None,
            }
        } else {
            None
        }
    }

    /// Readable items with their index, in index order.
    pub fn iter(&self) -> (r: Vec<(usize, &[u8])>)
        ensures
            r@.len() == populated(self@).len(),
            forall|k: int|
                0 <= k < r@.len() ==> (#[trigger] r@[k]).0 as int == populated(self@)[k].0
                    && r@[k].1@ == populated(self@)[k].1,
    {
        let mut out: Vec<(usize, &[u8])> = Vec::new();
        let mut i: usize = 0;
        while i < self.items.len()
            invariant
                i <= self@.len(),
                self@.len() == self.items@.len(),
                out@.len() == populated(self@.take(i as int)).len(),
                forall|k: int|
                    0 <= k < out@.len() ==> (#[trigger] out@[k]).0 as int == populated(
                        self@.take(i as int),
                    )[k].0 && out@[k].1@ == populated(self@.take(i as int))[k].1,
            decreases self@.len() - i,
        {
            let ghost prefix = self@.take(i + 1);
            assert(prefix.drop_last() =~= self@.take(i as int));
            match &self.items[i] {
                Some(v) => {
                    out.push((i, v.as_slice()));
                },
                None => {},
            }
            i = i + 1;
        }
        assert(self@.take(self@.len() as int) =~= self@);
        out
    }
}


/// Each item of a FixedData block is a non-empty slice of the data at its
/// recorded offset, no longer than `max` when `max` is not 0. Without a
/// maximum, an item at an offset inside the data runs to the next item's
/// offset when that offset lies further on within the data, and the last
/// item runs to the end of the data.
pub proof fn fixed_data_items_are_slices(meta: Seq<Seq<u8>>, data: Seq<u8>, max: int, index: int)
    requires
        max >= 0,
    ensures
        fixed_data_item(meta, data, max, index) matches Some(s) ==> {
            &&& meta_offset(meta, index) matches Some(o) && 0 <= o && o + s.len() <= data.len()
                && s == data.subrange(o as int, o + s.len())
            &&& s.len() > 0
            &&& max != 0 ==> s.len() <= max
        },
        ({
            let o = meta_offset(meta, index)->0;
            let next = meta_offset(meta, index + 1)->0;
            max == 0 && meta_offset(meta, index) is Some && 0 <= o < data.len() ==> {
                &&& index + 1 == meta.len() ==> fixed_data_item(meta, data, max, index) == Some(
                    data.subrange(o as int, data.len() as int),
                )
                &&& (index + 1 < meta.len() && meta_offset(meta, index + 1) is Some && o < next
                    <= data.len()) ==> fixed_data_item(meta, data, max, index) == Some(
                    data.subrange(o as int, next as int),
                )
            }
        }),
{
}

/// `populated` lists exactly the present items, each with its index, in
/// increasing index order.
pub proof fn populated_lists_present_items(items: Seq<Option<Seq<u8>>>)
    ensures
        forall|k: int|
            0 <= k < populated(items).len() ==> {
                let (i, b) = #[trigger] populated(items)[k];
                0 <= i < items.len() && items[i] == Some(b)
            },
        forall|k: int, l: int|
            0 <= k < l < populated(items).len() ==> populated(items)[k].0 < populated(items)[l].0,
        forall|i: int|
            0 <= i < items.len() && items[i] is Some ==> exists|k: int|
                0 <= k < populated(items).len() && #[trigger] populated(items)[k].0 == i,
    decreases items.len(),
{
    if items.len() > 0 {
        let rest = items.drop_last();
        populated_lists_present_items(rest);
        let n = items.len() - 1;
        assert forall|k: int| 0 <= k < populated(items).len() implies {
            let (i, b) = #[trigger] populated(items)[k];
            0 <= i < items.len() && items[i] == Some(b)
        } by {
            if k < populated(rest).len() {
                assert(populated(items)[k] == populated(rest)[k]);
                assert(rest[populated(rest)[k].0] == items[populated(rest)[k].0]);
            }
        }
        assert forall|i: int| 0 <= i < items.len() && items[i] is Some implies exists|k: int|
            0 <= k < populated(items).len() && #[trigger] populated(items)[k].0 == i by {
            if i < n {
                assert(rest[i] == items[i]);
                let k = choose|k: int| 0 <= k < populated(rest).len() && #[trigger] populated(rest)[k].0 == i;
                assert(populated(items)[k] == populated(rest)[k]);
            } else {
                assert(populated(items)[populated(items).len() - 1].0 == n);
            }
        }
    }
}

} // verus!
