//! Props: a dictionary from integer keys to byte strings, holding project
//! properties and the serialized field maps.
//!
//! Layout: a 16-byte header whose `u16` at offset 12 is the entry count;
//! each entry is `size: i32, key: i32, attribute: i32` followed by `size`
//! bytes, padded to an even length.

use std::collections::BTreeMap;

use vstd::prelude::*;
use vstd::std_specs::iter::IteratorSpec;

use crate::error::{is_corrupt, MppError};
use crate::text::spec_unicode_string;
use crate::util::get_unicode_string;
use crate::util::{
    get_i32, get_u16, get_u64, i32_of_bits, le_u16, le_u32, spec_get_i32, spec_get_u16,
    spec_get_u64,
};

verus! {

const HEADER_SIZE: usize = 16;

/// Property dictionary of a `Props` stream.
#[derive(Debug)]
pub struct Props {
    map: BTreeMap<i32, Vec<u8>>,
}

impl View for Props {
    type V = Map<i32, Seq<u8>>;

    closed spec fn view(&self) -> Map<i32, Seq<u8>> {
        self.map@.map_values(|v: Vec<u8>| v@)
    }
}

/// Entries read from `pos` on, `found` of `count` already read into `acc`.
/// Reading stops at the declared count, when fewer than 12 bytes remain for
/// an entry header, or at an entry whose size is below 1 or runs past the
/// end; a later entry with the same key replaces an earlier one.
pub open spec fn props_scan(
    data: Seq<u8>,
    count: int,
    pos: int,
    found: int,
    acc: Map<i32, Seq<u8>>,
) -> Map<i32, Seq<u8>>
    decreases count - found,
{
    if found >= count || data.len() - pos < 12 {
        acc
    } else {
        let size = i32_of_bits(le_u32(data, pos));
        let key = i32_of_bits(le_u32(data, pos + 4));
        let start = pos + 12;
        if size < 1 || data.len() - start < size {
            acc
        } else {
            let next = start + size + (if size % 2 != 0 {
                1int
            } else {
                0int
            });
            props_scan(data, count, next, found + 1, acc.insert(key, data.subrange(start, start + size)))
        }
    }
}

/// The dictionary held in `data` (which is at least as long as the header).
pub open spec fn spec_props(data: Seq<u8>) -> Map<i32, Seq<u8>> {
    props_scan(data, le_u16(data, 12) as int, 16, 0, Map::empty())
}

/// `v` is a non-empty run of the bytes of `data` after its header.
pub open spec fn run_of(data: Seq<u8>, v: Seq<u8>) -> bool {
    v.len() > 0 && exists|o: int|
        #![trigger data.subrange(o, o + v.len())]
        16 <= o && o + v.len() <= data.len() && v == data.subrange(o, o + v.len())
}

proof fn lemma_props_scan(data: Seq<u8>, count: int, pos: int, found: int, acc: Map<i32, Seq<u8>>)
    requires
        0 <= found <= count,
        pos >= 16,
        acc.dom().finite(),
        acc.len() <= found,
        forall|k: i32| #[trigger] acc.contains_key(k) ==> run_of(data, acc[k]),
    ensures
        ({
            let r = props_scan(data, count, pos, found, acc);
            &&& r.dom().finite()
            &&& r.len() <= count
            &&& forall|k: i32| #[trigger] r.contains_key(k) ==> run_of(data, r[k])
        }),
    decreases count - found,
{
    if found >= count || data.len() - pos < 12 {
    } else {
        let size = i32_of_bits(le_u32(data, pos));
        let key = i32_of_bits(le_u32(data, pos + 4));
        let start = pos + 12;
        if size < 1 || data.len() - start < size {
        } else {
            let next = start + size + (if size % 2 != 0 {
                1int
            } else {
                0int
            });
            let v = data.subrange(start, start + size);
            let acc2 = acc.insert(key, v);
            assert(run_of(data, v)) by {
                assert(v == data.subrange(start, start + v.len()));
            }
            assert forall|k: i32| #[trigger] acc2.contains_key(k) implies run_of(data, acc2[k]) by {
                if k != key {
                    assert(acc2[k] == acc[k]);
                }
            }
            if acc.contains_key(key) {
                assert(acc2.dom() =~= acc.dom());
            } else {
                assert(acc2.dom() =~= acc.dom().insert(key));
            }
            lemma_props_scan(data, count, next, found + 1, acc2);
        }
    }
}

/// A Props dictionary holds no more entries than its header declares, and
/// each value is a non-empty run of the bytes after the header.
pub proof fn props_entries_are_runs(data: Seq<u8>)
    requires
        data.len() >= 16,
    ensures
        spec_props(data).dom().finite(),
        spec_props(data).len() <= le_u16(data, 12),
        forall|k: i32| #[trigger] spec_props(data).contains_key(k) ==> run_of(data, spec_props(data)[k]),
{
    lemma_props_scan(data, le_u16(data, 12) as int, 16, 0, Map::empty());
}

proof fn lemma_props_scan_keeps(data: Seq<u8>, count: int, pos: int, found: int, acc: Map<i32, Seq<u8>>)
    ensures
        acc.dom().subset_of(props_scan(data, count, pos, found, acc).dom()),
    decreases count - found,
{
    if found >= count || data.len() - pos < 12 {
    } else {
        let size = i32_of_bits(le_u32(data, pos));
        let key = i32_of_bits(le_u32(data, pos + 4));
        let start = pos + 12;
        if size < 1 || data.len() - start < size {
        } else {
            let next = start + size + (if size % 2 != 0 {
                1int
            } else {
                0int
            });
            lemma_props_scan_keeps(
                data,
                count,
                next,
                found + 1,
                acc.insert(key, data.subrange(start, start + size)),
            );
        }
    }
}

/// The first entry of a dictionary that declares at least one entry is
/// read under its key: its size is the `i32` at byte 16, its key the `i32`
/// at byte 20, its value starts at byte 28; when no later entry has the
/// same key, the value is exactly those `size` bytes.
pub proof fn props_first_entry(data: Seq<u8>)
    requires
        data.len() >= 28,
        le_u16(data, 12) >= 1,
        i32_of_bits(le_u32(data, 16)) >= 1,
        28 + i32_of_bits(le_u32(data, 16)) <= data.len(),
    ensures
        spec_props(data).contains_key(i32_of_bits(le_u32(data, 20))),
        le_u16(data, 12) == 1 ==> spec_props(data) == Map::<i32, Seq<u8>>::empty().insert(
            i32_of_bits(le_u32(data, 20)),
            data.subrange(28, 28 + i32_of_bits(le_u32(data, 16))),
        ),
{
    let size = i32_of_bits(le_u32(data, 16));
    let key = i32_of_bits(le_u32(data, 20));
    let next = 28 + size + (if size % 2 != 0 {
        1int
    } else {
        0int
    });
    lemma_props_scan_keeps(
        data,
        le_u16(data, 12) as int,
        next,
        1,
        Map::empty().insert(key, data.subrange(28, 28 + size)),
    );
}

impl Props {
    /// Parses a `Props` stream; `context` names it in errors.
    pub fn parse(data: &[u8], context: &str) -> (r: Result<Props, MppError>)
        ensures
            match r {
                Ok(p) => data@.len() >= 16 && p@ == spec_props(data@),
                Err(e) => data@.len() < 16 && is_corrupt(
                    e,
                    context@,
                    "Props más corto que el header"@,
                ),
            },
    {
        if data.len() < HEADER_SIZE {
            return Err(MppError::corrupt(context, "Props más corto que el header".to_owned()));
        }
        let header_count = get_u16(data, 12).unwrap() as usize;
        let mut map: BTreeMap<i32, Vec<u8>> = BTreeMap::new();
        let mut pos: usize = HEADER_SIZE;
        let mut found: usize = 0;
        assert(map@.map_values(|v: Vec<u8>| v@) =~= Map::<i32, Seq<u8>>::empty());
        while found < header_count
            invariant
                data@.len() >= 16,
                data@.len() <= usize::MAX,
                header_count == le_u16(data@, 12),
                pos <= data@.len(),
                found <= header_count,
                props_scan(data@, header_count as int, pos as int, found as int,
                    map@.map_values(|v: Vec<u8>| v@)) == spec_props(data@),
            ensures
                map@.map_values(|v: Vec<u8>| v@) == spec_props(data@),
            decreases header_count - found,
        {
            if data.len() - pos < 12 {
                break;
            }
            let size = get_i32(data, pos).unwrap();
            let key = get_i32(data, pos + 4).unwrap();
            let start = pos + 12;
            if size < 1 || data.len() - start < size as usize {
                break;
            }
            let end = start + size as usize;
            let content = crate::util::copy_range(data, start, end);
            let ghost old_view = map@.map_values(|v: Vec<u8>| v@);
            map.insert(key, content);
            assert(map@.map_values(|v: Vec<u8>| v@) =~= old_view.insert(
                key,
                data@.subrange(start as int, end as int),
            ));
            found = found + 1;
            if size % 2 != 0 && end < data.len() {
                pos = end + 1;
            } else {
                pos = end;
                proof {
                    let m = map@.map_values(|v: Vec<u8>| v@);
                    if size % 2 != 0 {
                        assert(props_scan(data@, header_count as int, end + 1, found as int, m)
                            == m);
                        assert(props_scan(data@, header_count as int, end as int, found as int, m)
                            == m);
                    }
                }
            }
        }
        Ok(Props { map })
    }

    /// Raw bytes of the entry `key`.
    pub fn byte_array(&self, key: i32) -> (r: Option<&[u8]>)
        ensures
            match r {
                Some(b) => self@.contains_key(key) && b@ == self@[key],
                None => !self@.contains_key(key),
            },
    {
        match self.map.get(&key) {
            Some(v) => Some(v.as_slice()),
            None => None,
        }
    }

    /// The entry `key` read as a little-endian `i32`.
    pub fn get_i32(&self, key: i32) -> (r: Option<i32>)
        ensures
            r == (if self@.contains_key(key) {
                spec_get_i32(self@[key], 0)
            } else {
                None
            }),
    {
        match self.byte_array(key) {
            Some(b) => get_i32(b, 0),
            None => None,
        }
    }

    /// The entry `key` read as a little-endian `u16`.
    pub fn get_u16(&self, key: i32) -> (r: Option<u16>)
        ensures
            r == (if self@.contains_key(key) {
                spec_get_u16(self@[key], 0)
            } else {
                None
            }),
    {
        match self.byte_array(key) {
            Some(b) => get_u16(b, 0),
            None => None,
        }
    }

    /// The raw bits of the entry `key` read as a little-endian 8-byte value
    /// (an IEEE 754 double for floating-point properties).
    pub fn get_u64(&self, key: i32) -> (r: Option<u64>)
        ensures
            r == (if self@.contains_key(key) {
                spec_get_u64(self@[key], 0)
            } else {
                None
            }),
    {
        match self.byte_array(key) {
            Some(b) => get_u64(b, 0),
            None => None,
        }
    }

    /// The entry `key` read as a boolean: a `u16` that is not zero.
    pub fn get_bool(&self, key: i32) -> (r: Option<bool>)
        ensures
            r == (if self@.contains_key(key) {
                match spec_get_u16(self@[key], 0) {
                    Some(v) => Some(v != 0),
                    None => None,
                }
            } else {
                None
            }),
    {
        match self.get_u16(key) {
            Some(v) => Some(v != 0),
            None => None,
        }
    }

    /// The entry `key` read as a UTF-16LE string.
    pub fn get_unicode_string(&self, key: i32) -> (r: Option<String>)
        ensures
            match r {
                Some(s) => self@.contains_key(key) && spec_unicode_string(self@[key], 0) == Some(
                    s@,
                ),
                None => !self@.contains_key(key) || spec_unicode_string(self@[key], 0) is None,
            },
    {
        match self.byte_array(key) {
            Some(b) => get_unicode_string(b, 0),
            None => None,
        }
    }

    /// The keys, in ascending order.
    pub fn keys(&self) -> (r: Vec<i32>)
        ensures
            r@.to_set() == self@.dom(),
            forall|i: int, j: int| 0 <= i < j < r@.len() ==> r@[i] < r@[j],
    {
        let mut out: Vec<i32> = Vec::new();
        let ghost all = vstd::std_specs::btree::spec_keys_iter(&self.map).remaining();
        proof {
            vstd::std_specs::btree::axiom_spec_keys_iter(&self.map);
        }
        for k in it: self.map.keys()
            invariant
                it.seq() == all,
                out@ == it.seq().take(it.index() as int).map_values(|r: &i32| *r),
        {
            out.push(*k);
        }
        proof {
            assert(out@ =~= all.map_values(|r: &i32| *r));
            assert(all.unref() =~= all.map_values(|r: &i32| *r));
            assert(self@.dom() =~= self.map@.dom());
            crate::order::lemma_increasing_i32(all);
        }
        out
    }

    /// Number of entries.
    pub fn len(&self) -> (r: usize)
        ensures
            r == self@.len(),
    {
        assert(self@.dom() =~= self.map@.dom());
        self.map.len()
    }

    /// `true` when there is no entry.
    pub fn is_empty(&self) -> (r: bool)
        ensures
            r == (self@.len() == 0),
    {
        assert(self@.dom() =~= self.map@.dom());
        self.map.is_empty()
    }
}

} // verus!
