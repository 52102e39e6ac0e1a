//! Var2Data: variable-length data addressed by its VarMeta.
//!
//! At each offset that the VarMeta declares, the block holds `size: i32`
//! followed by `size` bytes. Offsets past the end and sizes that are
//! negative or run past the end are skipped.

use std::collections::BTreeMap;

use vstd::prelude::*;

use super::var_meta::{table_get, table_in_offsets, VarMeta};
use crate::text::spec_unicode_string;
use crate::util::get_unicode_string;
use crate::util::{copy_range, get_i32, i32_of_bits, le_u32, spec_get_i32};

verus! {

/// Variable-length items keyed by their offset in the block.
#[derive(Debug)]
pub struct Var2Data {
    map: BTreeMap<u32, Vec<u8>>,
}

impl View for Var2Data {
    type V = Map<u32, Seq<u8>>;

    closed spec fn view(&self) -> Map<u32, Seq<u8>> {
        self.map@.map_values(|v: Vec<u8>| v@)
    }
}

/// The item stored at offset `o`: `None` when the offset or the declared
/// size does not fit in the data or the size is negative.
pub open spec fn var2_item(data: Seq<u8>, o: u32) -> Option<Seq<u8>> {
    if o >= data.len() {
        None
    } else {
        match spec_get_i32(data, o as int) {
            None => None,
            Some(size) => if size < 0 || o + 4 + size > data.len() {
                None
            } else {
                Some(data.subrange(o + 4, o + 4 + size))
            },
        }
    }
}

/// Items of `data` at the given offsets.
pub open spec fn spec_var2_data(offsets: Set<u32>, data: Seq<u8>) -> Map<u32, Seq<u8>> {
    Map::new(
        |o: u32| offsets.contains(o) && var2_item(data, o) is Some,
        |o: u32| var2_item(data, o).unwrap(),
    )
}

/// Bytes of the field `typ` of the item `uid` in a block whose items are
/// `items`.
pub open spec fn var2_field(items: Map<u32, Seq<u8>>, meta: Map<u32, Map<u16, u32>>, uid: u32, typ: u16) -> Option<
    Seq<u8>,
> {
    if meta.contains_key(uid) && meta[uid].contains_key(typ) && items.contains_key(meta[uid][typ]) {
        Some(items[meta[uid][typ]])
    } else {
        None
    }
}

impl Var2Data {
    /// Reads the items at the offsets of `meta`.
    pub fn parse(meta: &VarMeta, data: &[u8]) -> (r: Var2Data)
        ensures
            r@ == spec_var2_data(meta.offsets().to_set(), data@),
    {
        let offsets = meta.sorted_offsets();
        let data_len = data.len();
        let mut map: BTreeMap<u32, Vec<u8>> = BTreeMap::new();
        let mut i: usize = 0;
        assert(map@.map_values(|v: Vec<u8>| v@) =~= spec_var2_data(
            offsets@.take(0).to_set(),
            data@,
        ));
        while i < offsets.len()
            invariant
                data_len == data@.len(),
                i <= offsets@.len(),
                map@.map_values(|v: Vec<u8>| v@) == spec_var2_data(
                    offsets@.take(i as int).to_set(),
                    data@,
                ),
            decreases offsets@.len() - i,
        {
            let offset = offsets[i];
            let o = offset as usize;
            let ghost before = map@.map_values(|v: Vec<u8>| v@);
            assert(offsets@.take(i + 1).to_set() =~= offsets@.take(i as int).to_set().insert(
                offset,
            )) by {
                assert(offsets@.take(i + 1) =~= offsets@.take(i as int).push(offset));
                offsets@.take(i as int).lemma_push_to_set_commute(offset);
            }
            if o < data_len {
                if let Some(size) = get_i32(data, o) {
                    if size >= 0 && (size as usize) <= data_len - (o + 4) {
                        let content = copy_range(data, o + 4, o + 4 + size as usize);
                        assert(var2_item(data@, offset) == Some(content@));
                        map.insert(offset, content);
                        assert(map@.map_values(|v: Vec<u8>| v@) =~= before.insert(
                            offset,
                            content@,
                        ));
                        assert(map@.map_values(|v: Vec<u8>| v@) =~= spec_var2_data(
                            offsets@.take(i + 1).to_set(),
                            data@,
                        ));
                    } else {
                        assert(map@.map_values(|v: Vec<u8>| v@) =~= spec_var2_data(
                            offsets@.take(i + 1).to_set(),
                            data@,
                        ));
                    }
                } else {
                    assert(map@.map_values(|v: Vec<u8>| v@) =~= spec_var2_data(
                        offsets@.take(i + 1).to_set(),
                        data@,
                    ));
                }
            } else {
                assert(map@.map_values(|v: Vec<u8>| v@) =~= spec_var2_data(
                    offsets@.take(i + 1).to_set(),
                    data@,
                ));
            }
            i = i + 1;
        }
        assert(offsets@.take(offsets@.len() as int) =~= offsets@);
        Var2Data { map }
    }

    /// Bytes of the field `typ` of the item `uid`.
    pub fn byte_array(&self, meta: &VarMeta, uid: u32, typ: u16) -> (r: Option<&[u8]>)
        ensures
            match r {
                Some(b) => var2_field(self@, meta.table(), uid, typ) == Some(b@),
                None => var2_field(self@, meta.table(), uid, typ) is None,
            },
    {
        match meta.offset(uid, typ) {
            Some(o) => match self.map.get(&o) {
                Some(v) => Some(v.as_slice()),
                None => None,
            },
            None => None,
        }
    }

    /// UTF-16LE string in the field `typ` of the item `uid`.
    pub fn unicode_string(&self, meta: &VarMeta, uid: u32, typ: u16) -> (r: Option<String>)
        ensures
            match r {
                Some(s) => var2_field(self@, meta.table(), uid, typ) is Some && spec_unicode_string(
                    var2_field(self@, meta.table(), uid, typ).unwrap(),
                    0,
                ) == Some(s@),
                None => var2_field(self@, meta.table(), uid, typ) is None || spec_unicode_string(
                    var2_field(self@, meta.table(), uid, typ).unwrap(),
                    0,
                ) is None,
            },
    {
        match self.byte_array(meta, uid, typ) {
            Some(b) => get_unicode_string(b, 0),
            None => None,
        }
    }

    /// Number of items read.
    pub fn item_count(&self) -> (r: usize)
        ensures
            r == self@.len(),
    {
        assert(self@.dom() =~= self.map@.dom());
        self.map.len()
    }
}


/// The items of a Var2Data block are those of its distinct offsets whose
/// size fits: never more items than distinct offsets.
pub proof fn var2_items_within_offsets(offsets: Set<u32>, data: Seq<u8>)
    requires
        offsets.finite(),
    ensures
        spec_var2_data(offsets, data).dom() == offsets.filter(|o: u32| var2_item(data, o) is Some),
        spec_var2_data(offsets, data).len() <= offsets.len(),
{
    let items = spec_var2_data(offsets, data);
    assert(items.dom() =~= offsets.filter(|o: u32| var2_item(data, o) is Some));
    vstd::set_lib::lemma_len_subset(items.dom(), offsets);
}


/// Looking up a field goes through the offset that the metadata records
/// for it: the field of `(uid, typ)` is the item at that offset when its
/// size fits the data, and absent when no offset is recorded or the item
/// does not fit. This holds for every `VarMeta` (its offsets cover its
/// table, as `VarMeta::parse` and `VarMeta::sorted_offsets` state).
pub proof fn var2_field_follows_meta(
    table: Map<u32, Map<u16, u32>>,
    offsets: Seq<u32>,
    data: Seq<u8>,
    uid: u32,
    typ: u16,
)
    requires
        table_in_offsets(table, offsets),
    ensures
        var2_field(spec_var2_data(offsets.to_set(), data), table, uid, typ) == match table_get(
            table,
            uid,
            typ,
        ) {
            Some(o) => var2_item(data, o),
            None => None,
        },
{
    if table_get(table, uid, typ) is Some {
        assert(offsets.to_set().contains(table_get(table, uid, typ)->0));
    }
}


/// An item of a Var2Data block sits at one of the given offsets `o`: its
/// size is the non-negative `i32` at `o` and its bytes are the `size` bytes
/// after it, all within the data.
pub proof fn var2_items_are_sized_runs(offsets: Set<u32>, data: Seq<u8>, o: u32)
    ensures
        spec_var2_data(offsets, data).contains_key(o) ==> {
            let size = i32_of_bits(le_u32(data, o as int));
            &&& offsets.contains(o)
            &&& o + 4 <= data.len()
            &&& 0 <= size && o + 4 + size <= data.len()
            &&& spec_var2_data(offsets, data)[o] == data.subrange(o + 4, o + 4 + size)
        },
{
}

} // verus!
