//! Tasks from the `TBkndTask` storage.
//!
//! The task map (`uid -> item index`) handles deleted, null and duplicated
//! tasks; fields are read through the field map; boolean flags come from
//! the metadata bytes at positions that depend on the version of Project
//! that wrote the file; for auto-scheduled tasks the scheduled dates take
//! precedence over the manual ones.

use std::collections::{BTreeMap, BTreeSet};

use vstd::prelude::*;
use vstd::std_specs::iter::IteratorSpec;

use crate::blocks::fixed_data::{fixed_data_item, FixedData};
use crate::blocks::fixed_meta::{candidate_item_size, fixed_meta_items, fixed_meta_outcome, FixedMeta};
use crate::blocks::var2_data::{spec_var2_data, var2_field, Var2Data};
use crate::blocks::var_meta::{spec_var_meta, var_meta_failure, var_meta_magic_ok, var_meta_valid, VarMeta};
use crate::container::{stream_failure, MppContainer};
use crate::dec::{
    duration_units, get_timestamp, percentage, spec_duration_units, spec_percentage, spec_timestamp,
};
use crate::error::{is_corrupt, MppError};
use crate::field_map::{spec_location, task, FieldLocation, FieldMap};
use crate::model::{opt_str, ConstraintType, Duration, Task};
use crate::order::sorted_keys;
use crate::text::{
    has_prefix, spec_unicode_string, starts_with, string_from_chars, trim, trim_is_idempotent,
    trimmed, unicode_chars,
};
use crate::util::{get_i32, get_u16, get_u64, le_u32, spec_get_i32, spec_get_u16, spec_get_u64};

verus! {

/// Item size of the task FixedMeta.
pub const TASK_FIXED_META_ITEM_SIZE: usize = 47;

/// Size of the data block of a null task (no name, no data).
pub const NULL_TASK_BLOCK_SIZE: usize = 16;

/// The six blocks of the task storage.
pub struct TaskBlocks {
    pub var_meta: VarMeta,
    pub var_data: Var2Data,
    pub fixed_meta: FixedMeta,
    pub fixed_data: FixedData,
    pub fixed2_meta: FixedMeta,
    pub fixed2_data: FixedData,
}

/// Candidate item sizes of the task Fixed2Meta, which vary with the version
/// of Project that wrote the file.
pub open spec fn fixed2_candidates() -> Seq<usize> {
    seq![92usize, 93usize, 94usize, 95usize, 96usize]
}

/// The six task streams are readable and their metadata blocks are valid.
pub open spec fn task_blocks_readable(c: MppContainer) -> bool {
    &&& c.stream_bytes("TBkndTask/VarMeta"@) matches Some(vm) && vm.len() >= 4 && var_meta_magic_ok(
        le_u32(vm, 0),
    )
    &&& c.stream_bytes("TBkndTask/Var2Data"@) is Some
    &&& c.stream_bytes("TBkndTask/FixedMeta"@) matches Some(fm) && fixed_meta_outcome(
        fm,
        TASK_FIXED_META_ITEM_SIZE as int,
    ) is Ok
    &&& c.stream_bytes("TBkndTask/FixedData"@) is Some
    &&& c.stream_bytes("TBkndTask/Fixed2Meta"@) matches Some(f2m) && fixed_meta_outcome(
        f2m,
        candidate_item_size(
            f2m,
            fixed_meta_items(c.stream_bytes("TBkndTask/FixedMeta"@).unwrap(), 47).len() as int,
            fixed2_candidates(),
        ) as int,
    ) is Ok
    &&& c.stream_bytes("TBkndTask/Fixed2Data"@) is Some
}

/// `e` is the error of reading the task blocks of `c`: that of the first
/// stream that cannot be read or block that is not valid, in the order
/// VarMeta, Var2Data, FixedMeta, FixedData, Fixed2Meta, Fixed2Data.
pub open spec fn task_blocks_failure(c: MppContainer, e: MppError) -> bool {
    let vm = c.stream_bytes("TBkndTask/VarMeta"@);
    let fm = c.stream_bytes("TBkndTask/FixedMeta"@);
    let f2m = c.stream_bytes("TBkndTask/Fixed2Meta"@);
    if vm is None {
        stream_failure(c, "TBkndTask/VarMeta"@, e)
    } else if !var_meta_valid(vm->0) {
        var_meta_failure(vm->0, "TBkndTask"@, e)
    } else if c.stream_bytes("TBkndTask/Var2Data"@) is None {
        stream_failure(c, "TBkndTask/Var2Data"@, e)
    } else if fm is None {
        stream_failure(c, "TBkndTask/FixedMeta"@, e)
    } else if fixed_meta_outcome(fm->0, 47) is Err {
        is_corrupt(e, "TBkndTask"@, fixed_meta_outcome(fm->0, 47)->Err_0)
    } else if c.stream_bytes("TBkndTask/FixedData"@) is None {
        stream_failure(c, "TBkndTask/FixedData"@, e)
    } else if f2m is None {
        stream_failure(c, "TBkndTask/Fixed2Meta"@, e)
    } else {
        let size = candidate_item_size(
            f2m->0,
            fixed_meta_items(fm->0, 47).len() as int,
            fixed2_candidates(),
        ) as int;
        if fixed_meta_outcome(f2m->0, size) is Err {
            is_corrupt(e, "TBkndTask"@, fixed_meta_outcome(f2m->0, size)->Err_0)
        } else {
            stream_failure(c, "TBkndTask/Fixed2Data"@, e)
        }
    }
}

/// `b` holds the parse of the six task streams of `c`.
pub open spec fn task_blocks_of(b: TaskBlocks, c: MppContainer) -> bool {
    let vm = c.stream_bytes("TBkndTask/VarMeta"@).unwrap();
    let fm = c.stream_bytes("TBkndTask/FixedMeta"@).unwrap();
    let f2m = c.stream_bytes("TBkndTask/Fixed2Meta"@).unwrap();
    &&& b.var_meta.table() == spec_var_meta(vm).0
    &&& b.var_meta.offsets().to_multiset() == spec_var_meta(vm).1.to_multiset()
    &&& b.var_data@ == spec_var2_data(
        spec_var_meta(vm).1.to_set(),
        c.stream_bytes("TBkndTask/Var2Data"@).unwrap(),
    )
    &&& fixed_meta_outcome(fm, 47) == Ok::<Seq<Seq<u8>>, Seq<char>>(b.fixed_meta@)
    &&& b.fixed_data@.len() == b.fixed_meta@.len()
    &&& forall|i: int|
        0 <= i < b.fixed_data@.len() ==> #[trigger] b.fixed_data@[i] == fixed_data_item(
            b.fixed_meta@,
            c.stream_bytes("TBkndTask/FixedData"@).unwrap(),
            0,
            i,
        )
    &&& fixed_meta_outcome(
        f2m,
        candidate_item_size(f2m, b.fixed_meta@.len() as int, fixed2_candidates()) as int,
    ) == Ok::<Seq<Seq<u8>>, Seq<char>>(b.fixed2_meta@)
    &&& b.fixed2_data@.len() == b.fixed2_meta@.len()
    &&& forall|i: int|
        0 <= i < b.fixed2_data@.len() ==> #[trigger] b.fixed2_data@[i] == fixed_data_item(
            b.fixed2_meta@,
            c.stream_bytes("TBkndTask/Fixed2Data"@).unwrap(),
            0,
            i,
        )
}

/// Reads the six blocks of the task storage.
pub fn read_blocks(c: &mut MppContainer) -> (r: Result<TaskBlocks, MppError>)
    ensures
        final(c).streams() == old(c).streams(),
        final(c).storages() == old(c).storages(),
        final(c).mask() == old(c).mask(),
        final(c).version() == old(c).version(),
        r is Ok <==> task_blocks_readable(*old(c)),
        r matches Ok(b) ==> task_blocks_of(b, *old(c)),
        r matches Err(e) ==> task_blocks_failure(*old(c), e),
{
    let dir = "TBkndTask";
    let ghost c0 = *c;
    let vm_bytes = c.stream("TBkndTask/VarMeta")?;
    let var_meta = VarMeta::parse(vm_bytes.as_slice(), dir)?;
    let v2_bytes = c.stream("TBkndTask/Var2Data")?;
    let var_data = Var2Data::parse(&var_meta, v2_bytes.as_slice());
    let fm_bytes = c.stream("TBkndTask/FixedMeta")?;
    let fixed_meta = FixedMeta::parse(fm_bytes.as_slice(), TASK_FIXED_META_ITEM_SIZE, dir)?;
    let fd_bytes = c.stream("TBkndTask/FixedData")?;
    let fixed_data = FixedData::parse(&fixed_meta, fd_bytes.as_slice(), 0);
    let f2m_bytes = c.stream("TBkndTask/Fixed2Meta")?;
    let candidates: [usize; 5] = [92, 93, 94, 95, 96];
    assert(candidates@ =~= fixed2_candidates());
    let fixed2_meta = FixedMeta::parse_with_candidate_sizes(
        f2m_bytes.as_slice(),
        fixed_data.item_count(),
        &candidates,
        dir,
    )?;
    let f2d_bytes = c.stream("TBkndTask/Fixed2Data")?;
    let fixed2_data = FixedData::parse(&fixed2_meta, f2d_bytes.as_slice(), 0);
    Ok(TaskBlocks { var_meta, var_data, fixed_meta, fixed_data, fixed2_meta, fixed2_data })
}

/// What the task reader sees of the field map and of the blocks.
pub struct TaskSource {
    pub locations: Map<u16, FieldLocation>,
    pub max_size: int,
    pub meta: Seq<Seq<u8>>,
    pub meta2: Seq<Seq<u8>>,
    pub data: Seq<Option<Seq<u8>>>,
    pub data2: Seq<Option<Seq<u8>>>,
    pub var_table: Map<u32, Map<u16, u32>>,
    pub var_items: Map<u32, Seq<u8>>,
}

pub open spec fn task_source(fm: &FieldMap, b: &TaskBlocks) -> TaskSource {
    TaskSource {
        locations: fm.locations(),
        max_size: fm.max_sizes().0,
        meta: b.fixed_meta@,
        meta2: b.fixed2_meta@,
        data: b.fixed_data@,
        data2: b.fixed2_data@,
        var_table: b.var_meta.table(),
        var_items: b.var_data@,
    }
}

/// Element `i` of an optional-item sequence (`None` out of range).
pub open spec fn opt_at(s: Seq<Option<Seq<u8>>>, i: int) -> Option<Seq<u8>> {
    if 0 <= i < s.len() {
        s[i]
    } else {
        None
    }
}

/// Element `i` of a sequence of items (`None` out of range).
pub open spec fn item_at(s: Seq<Seq<u8>>, i: int) -> Option<Seq<u8>> {
    if 0 <= i < s.len() {
        Some(s[i])
    } else {
        None
    }
}

/// Flags word of a metadata item: its first `i32` (0 when absent).
pub open spec fn meta_flags(meta: Seq<Seq<u8>>, i: int) -> i32 {
    match item_at(meta, i) {
        Some(m) => match spec_get_i32(m, 0) {
            Some(f) => f,
            None => 0,
        },
        None => 0,
    }
}

/// Offset of the unique id within the fixed data (0 when the map does not
/// place it there).
pub open spec fn uid_offset(locations: Map<u16, FieldLocation>) -> int {
    match spec_location(locations, task::UNIQUE_ID) {
        FieldLocation::FixedData { offset, .. } => offset as int,
        _ => 0,
    }
}

/// Some variable data is recorded for `uid`.
pub open spec fn has_var_data(table: Map<u32, Map<u16, u32>>, uid: u32) -> bool {
    table.contains_key(uid) && table[uid].dom() != Set::<u16>::empty()
}

/// Adds `uid -> slot` unless `uid` is already mapped.
pub open spec fn insert_new(acc: Map<u32, Option<usize>>, uid: u32, slot: Option<usize>) -> Map<
    u32,
    Option<usize>,
> {
    if acc.contains_key(uid) {
        acc
    } else {
        acc.insert(uid, slot)
    }
}

/// One item of the task map scan (items are visited from the last to the
/// fourth). An item is considered only when both fixed data blocks hold
/// it. A deleted task (flag 0x02) records its `u16` uid as deleted unless
/// already mapped; a null task (16-byte block) maps its `i32` uid unless
/// already mapped; a block no larger than 75% of the expected size is
/// skipped; otherwise the uid read at its offset is mapped when new, or
/// remapped when it has variable data and flag 0x04 is clear.
pub open spec fn task_map_step(src: TaskSource, index: int, acc: Map<u32, Option<usize>>) -> Map<
    u32,
    Option<usize>,
> {
    match (opt_at(src.data, index), opt_at(src.data2, index)) {
        (Some(data), Some(_)) => {
            let flags = meta_flags(src.meta, index);
            if flags & 0x02 != 0 {
                match spec_get_u16(data, 0) {
                    Some(uid) => insert_new(acc, uid as u32, None),
                    None => acc,
                }
            } else if data.len() == 16 {
                match spec_get_i32(data, 0) {
                    Some(v) => insert_new(acc, v as u32, Some(index as usize)),
                    None => acc,
                }
            } else if src.max_size != 0 && (data.len() as int * 100) / src.max_size <= 75 {
                acc
            } else {
                match spec_get_i32(data, uid_offset(src.locations)) {
                    None => acc,
                    Some(v) => {
                        let uid = v as u32;
                        if !acc.contains_key(uid) || (has_var_data(src.var_table, uid) && flags
                            & 0x04 == 0) {
                            acc.insert(uid, Some(index as usize))
                        } else {
                            acc
                        }
                    },
                }
            }
        },
        _ => acc,
    }
}

/// Task map after visiting the items `index, index - 1, ..., 3`.
pub open spec fn task_map_scan(src: TaskSource, index: int, acc: Map<u32, Option<usize>>) -> Map<
    u32,
    Option<usize>,
>
    decreases index,
{
    if index < 3 {
        acc
    } else {
        task_map_scan(src, index - 1, task_map_step(src, index, acc))
    }
}

/// The task map: `uid -> item index`, `None` for deleted tasks. Items are
/// visited from the last one down, so that among duplicates the latest
/// version wins.
pub open spec fn spec_task_map(src: TaskSource) -> Map<u32, Option<usize>> {
    task_map_scan(src, src.meta.len() - 1, Map::empty())
}

/// Item `i` is one that the task map may point to: at position 3 or
/// later, and present in both fixed data blocks.
pub open spec fn task_item_ok(src: TaskSource, i: int) -> bool {
    &&& 3 <= i < src.meta.len()
    &&& opt_at(src.data, i) is Some
    &&& opt_at(src.data2, i) is Some
}

/// Item `j` records the deletion of the task `uid`: flag 0x02 set and the
/// uid in the first `u16` of its data.
pub open spec fn deleted_at(src: TaskSource, j: int, uid: u32) -> bool {
    &&& task_item_ok(src, j)
    &&& meta_flags(src.meta, j) & 0x02 != 0
    &&& spec_get_u16(opt_at(src.data, j)->0, 0) matches Some(v) && v as u32 == uid
}

/// Every entry of the map is either an item that the map may point to, or
/// a deletion recorded by such an item.
pub open spec fn task_map_sound(src: TaskSource, m: Map<u32, Option<usize>>) -> bool {
    forall|uid: u32|
        #[trigger] m.contains_key(uid) ==> match m[uid] {
            Some(i) => task_item_ok(src, i as int),
            None => exists|j: int| deleted_at(src, j, uid),
        }
}

proof fn lemma_task_map_scan_sound(src: TaskSource, index: int, acc: Map<u32, Option<usize>>)
    requires
        src.meta.len() <= usize::MAX,
        index < src.meta.len(),
        task_map_sound(src, acc),
    ensures
        task_map_sound(src, task_map_scan(src, index, acc)),
    decreases index,
{
    if index >= 3 {
        let next = task_map_step(src, index, acc);
        assert(task_map_sound(src, next)) by {
            assert forall|uid: u32| #[trigger] next.contains_key(uid) implies match next[uid] {
                Some(i) => task_item_ok(src, i as int),
                None => exists|j: int| deleted_at(src, j, uid),
            } by {
                if acc.contains_key(uid) && next[uid] == acc[uid] {
                } else {
                    match next[uid] {
                        Some(i) => {
                            assert(i as int == index);
                        },
                        None => {
                            assert(deleted_at(src, index, uid));
                        },
                    }
                }
            }
        }
        lemma_task_map_scan_sound(src, index - 1, next);
    }
}

/// The task map points only to items at position 3 or later that both
/// fixed data blocks hold (the first three items are never tasks); a uid
/// mapped to `None` was recorded as deleted by such an item.
pub proof fn task_map_is_sound(src: TaskSource)
    requires
        src.meta.len() <= usize::MAX,
    ensures
        task_map_sound(src, spec_task_map(src)),
{
    lemma_task_map_scan_sound(src, src.meta.len() - 1, Map::empty());
}

fn var_data_present(var_meta: &VarMeta, uid: u32) -> (r: bool)
    ensures
        r == has_var_data(var_meta.table(), uid),
{
    let types = var_meta.types_for(uid);
    proof {
        if var_meta.table().contains_key(uid) {
            if types@.len() > 0 {
                assert(types@.to_set().contains(types@[0]));
                assert(var_meta.table()[uid].dom().contains(types@[0]));
            } else {
                assert(types@.to_set() =~= Set::<u16>::empty());
            }
        }
    }
    types.len() > 0
}

fn insert_if_new(map: &mut BTreeMap<u32, Option<usize>>, uid: u32, slot: Option<usize>)
    ensures
        final(map)@ == insert_new(old(map)@, uid, slot),
{
    if !map.contains_key(&uid) {
        map.insert(uid, slot);
    }
}

/// Applies the task map step of item `index`.
fn task_map_update(
    fm: &FieldMap,
    b: &TaskBlocks,
    uid_off: usize,
    max_size: usize,
    index: usize,
    map: &mut BTreeMap<u32, Option<usize>>,
)
    requires
        uid_off == uid_offset(fm.locations()),
        max_size == fm.max_sizes().0,
    ensures
        final(map)@ == task_map_step(task_source(fm, b), index as int, old(map)@),
{
    let ghost src = task_source(fm, b);
    let data = match b.fixed_data.item(index) {
        Some(d) => d,
        None => return,
    };
    if b.fixed2_data.item(index).is_none() {
        return;
    }
    let flags: i32 = match b.fixed_meta.item(index) {
        Some(m) => match get_i32(m, 0) {
            Some(f) => f,
            None => 0,
        },
        None => 0,
    };
    assert(flags == meta_flags(src.meta, index as int));
    if flags & 0x02 != 0 {
        if let Some(uid) = get_u16(data, 0) {
            insert_if_new(map, uid as u32, None);
        }
        return;
    }
    if data.len() == NULL_TASK_BLOCK_SIZE {
        if let Some(v) = get_i32(data, 0) {
            insert_if_new(map, v as u32, Some(index));
        }
        return;
    }
    if max_size != 0 && ((data.len() as u128) * 100) / (max_size as u128) <= 75 {
        return;
    }
    let uid = match get_i32(data, uid_off) {
        Some(v) => v as u32,
        None => return,
    };
    let already = map.contains_key(&uid);
    let has_var = var_data_present(&b.var_meta, uid);
    if !already || (has_var && flags & 0x04 == 0) {
        map.insert(uid, Some(index));
    }
}

/// Builds the task map: `uid -> item index`, `None` for deleted tasks.
pub fn create_task_map(fm: &FieldMap, b: &TaskBlocks) -> (r: BTreeMap<u32, Option<usize>>)
    ensures
        r@ == spec_task_map(task_source(fm, b)),
{
    let ghost src = task_source(fm, b);
    let uid_off: usize = match fm.fixed_offset(task::UNIQUE_ID) {
        Some((_, o)) => o,
        None => 0,
    };
    let max_size = fm.max_fixed_data_size(0);
    let item_count = b.fixed_meta.item_count();
    let mut map: BTreeMap<u32, Option<usize>> = BTreeMap::new();
    let mut index = item_count;
    while index > 3
        invariant
            index <= item_count,
            item_count == src.meta.len(),
            uid_off == uid_offset(fm.locations()),
            max_size == fm.max_sizes().0,
            src == task_source(fm, b),
            task_map_scan(src, index - 1, map@) == spec_task_map(src),
        decreases index,
    {
        index = index - 1;
        let ghost before = map@;
        task_map_update(fm, b, uid_off, max_size, index, &mut map);
        assert(task_map_scan(src, index as int, before) == task_map_scan(
            src,
            index - 1,
            task_map_step(src, index as int, before),
        ));
    }
    map
}

/// Bytes of the field `field` of the task `uid` stored at item `index`:
/// the rest of the fixed data item from the field's offset (block 0 or 1),
/// or the variable data entry; `None` otherwise.
pub open spec fn field_bytes(src: TaskSource, uid: u32, index: int, field: u16) -> Option<Seq<u8>> {
    match spec_location(src.locations, field) {
        FieldLocation::FixedData { block, offset } => {
            let d = if block == 0 {
                opt_at(src.data, index)
            } else {
                opt_at(src.data2, index)
            };
            match d {
                Some(d) => if offset < d.len() {
                    Some(d.skip(offset as int))
                } else {
                    None
                },
                None => None,
            }
        },
        FieldLocation::VarData { key } => var2_field(src.var_items, src.var_table, uid, key),
        _ => None,
    }
}

pub open spec fn field_i32(src: TaskSource, uid: u32, index: int, field: u16) -> Option<i32> {
    match field_bytes(src, uid, index, field) {
        Some(b) => spec_get_i32(b, 0),
        None => None,
    }
}

pub open spec fn field_u16(src: TaskSource, uid: u32, index: int, field: u16) -> Option<u16> {
    match field_bytes(src, uid, index, field) {
        Some(b) => spec_get_u16(b, 0),
        None => None,
    }
}

pub open spec fn field_u64(src: TaskSource, uid: u32, index: int, field: u16) -> Option<u64> {
    match field_bytes(src, uid, index, field) {
        Some(b) => spec_get_u64(b, 0),
        None => None,
    }
}

/// A text field: the stored string without surrounding white space; `None`
/// when it is absent, invalid or blank.
pub open spec fn field_text(src: TaskSource, uid: u32, index: int, field: u16) -> Option<Seq<char>> {
    match field_bytes(src, uid, index, field) {
        Some(b) => match spec_unicode_string(b, 0) {
            Some(s) => if trim(s).len() > 0 {
                Some(trim(s))
            } else {
                None
            },
            None => None,
        },
        None => None,
    }
}

pub open spec fn field_timestamp(src: TaskSource, uid: u32, index: int, field: u16) -> Option<
    Seq<char>,
> {
    match field_bytes(src, uid, index, field) {
        Some(b) => spec_timestamp(b, 0),
        None => None,
    }
}

/// Reads the fields of one task.
struct FieldReader<'a> {
    fm: &'a FieldMap,
    b: &'a TaskBlocks,
    uid: u32,
    index: usize,
}

impl<'a> FieldReader<'a> {
    spec fn src(&self) -> TaskSource {
        task_source(self.fm, self.b)
    }

    fn bytes(&self, field: u16) -> (r: Option<&'a [u8]>)
        ensures
            match r {
                Some(b) => field_bytes(self.src(), self.uid, self.index as int, field) == Some(b@),
                None => field_bytes(self.src(), self.uid, self.index as int, field) is None,
            },
    {
        match self.fm.location(field) {
            FieldLocation::FixedData { block, offset } => {
                let d = if block == 0 {
                    self.b.fixed_data.item(self.index)
                } else {
                    self.b.fixed2_data.item(self.index)
                };
                match d {
                    Some(d) => if offset < d.len() {
                        Some(vstd::slice::slice_subrange(d, offset, d.len()))
                    } else {
                        None
                    },
                    None => None,
                }
            },
            FieldLocation::VarData { key } => self.b.var_data.byte_array(
                &self.b.var_meta,
                self.uid,
                key,
            ),
            _ => None,
        }
    }

    fn i32(&self, field: u16) -> (r: Option<i32>)
        ensures
            r == field_i32(self.src(), self.uid, self.index as int, field),
    {
        match self.bytes(field) {
            Some(b) => get_i32(b, 0),
            None => None,
        }
    }

    fn u16(&self, field: u16) -> (r: Option<u16>)
        ensures
            r == field_u16(self.src(), self.uid, self.index as int, field),
    {
        match self.bytes(field) {
            Some(b) => get_u16(b, 0),
            None => None,
        }
    }

    fn u64(&self, field: u16) -> (r: Option<u64>)
        ensures
            r == field_u64(self.src(), self.uid, self.index as int, field),
    {
        match self.bytes(field) {
            Some(b) => get_u64(b, 0),
            None => None,
        }
    }

    fn string_chars(&self, field: u16) -> (r: Option<Vec<char>>)
        ensures
            match r {
                Some(v) => field_text(self.src(), self.uid, self.index as int, field) == Some(v@),
                None => field_text(self.src(), self.uid, self.index as int, field) is None,
            },
    {
        let b = match self.bytes(field) {
            Some(b) => b,
            None => return None,
        };
        let chars = match unicode_chars(b, 0) {
            Some(c) => c,
            None => return None,
        };
        let t = trimmed(chars.as_slice());
        if t.len() > 0 {
            Some(t)
        } else {
            None
        }
    }

    fn string(&self, field: u16) -> (r: Option<String>)
        ensures
            opt_str(r) == field_text(self.src(), self.uid, self.index as int, field),
    {
        match self.string_chars(field) {
            Some(v) => Some(string_from_chars(v.as_slice())),
            None => None,
        }
    }

    fn timestamp(&self, field: u16) -> (r: Option<String>)
        ensures
            opt_str(r) == field_timestamp(self.src(), self.uid, self.index as int, field),
    {
        match self.bytes(field) {
            Some(b) => get_timestamp(b, 0),
            None => None,
        }
    }
}

/// Byte and mask of a boolean flag in a metadata item.
pub struct MetaBit {
    pub byte: usize,
    pub mask: u8,
}

/// Positions of the milestone flag (task FixedMeta) and of the manual
/// scheduling flag (task Fixed2Meta), by application version: Project 2010
/// (14 and below) differs from 2013 and later.
pub open spec fn spec_meta_bits(version: u32) -> (MetaBit, MetaBit) {
    if version <= 14 {
        (MetaBit { byte: 8, mask: 0x20 }, MetaBit { byte: 8, mask: 0x08 })
    } else {
        (MetaBit { byte: 10, mask: 0x02 }, MetaBit { byte: 8, mask: 0x80 })
    }
}

fn meta_bits(version: u32) -> (r: (MetaBit, MetaBit))
    ensures
        r == spec_meta_bits(version),
{
    if version <= 14 {
        (MetaBit { byte: 8, mask: 0x20 }, MetaBit { byte: 8, mask: 0x08 })
    } else {
        (MetaBit { byte: 10, mask: 0x02 }, MetaBit { byte: 8, mask: 0x80 })
    }
}

/// The flag is set in the item (false when the item or the byte is absent).
pub open spec fn spec_bit(item: Option<Seq<u8>>, bit: MetaBit) -> bool {
    match item {
        Some(d) => bit.byte < d.len() && d[bit.byte as int] & bit.mask != 0,
        None => false,
    }
}

fn bit(item: Option<&[u8]>, flag: &MetaBit) -> (r: bool)
    ensures
        r == spec_bit(
            match item {
                Some(d) => Some(d@),
                None => None,
            },
            *flag,
        ),
{
    match item {
        Some(d) => flag.byte < d.len() && d[flag.byte] & flag.mask != 0,
        None => false,
    }
}

/// Constraint type of a stored code (0..=7 in the format's order).
pub open spec fn spec_constraint_type(raw: u16) -> Option<ConstraintType> {
    if raw == 0 {
        Some(ConstraintType::AsSoonAsPossible)
    } else if raw == 1 {
        Some(ConstraintType::AsLateAsPossible)
    } else if raw == 2 {
        Some(ConstraintType::MustStartOn)
    } else if raw == 3 {
        Some(ConstraintType::MustFinishOn)
    } else if raw == 4 {
        Some(ConstraintType::StartNoEarlierThan)
    } else if raw == 5 {
        Some(ConstraintType::StartNoLaterThan)
    } else if raw == 6 {
        Some(ConstraintType::FinishNoEarlierThan)
    } else if raw == 7 {
        Some(ConstraintType::FinishNoLaterThan)
    } else {
        None
    }
}

/// Constraint type of a stored code.
pub fn constraint_type(raw: u16) -> (r: Option<ConstraintType>)
    ensures
        r == spec_constraint_type(raw),
        raw == 0 ==> r == Some(ConstraintType::AsSoonAsPossible),
        raw == 1 ==> r == Some(ConstraintType::AsLateAsPossible),
        raw == 2 ==> r == Some(ConstraintType::MustStartOn),
        raw == 3 ==> r == Some(ConstraintType::MustFinishOn),
        raw == 4 ==> r == Some(ConstraintType::StartNoEarlierThan),
        raw == 5 ==> r == Some(ConstraintType::StartNoLaterThan),
        raw == 6 ==> r == Some(ConstraintType::FinishNoEarlierThan),
        raw == 7 ==> r == Some(ConstraintType::FinishNoLaterThan),
        raw > 7 ==> r is None,
{
    match raw {
        0 => Some(ConstraintType::AsSoonAsPossible),
        1 => Some(ConstraintType::AsLateAsPossible),
        2 => Some(ConstraintType::MustStartOn),
        3 => Some(ConstraintType::MustFinishOn),
        4 => Some(ConstraintType::StartNoEarlierThan),
        5 => Some(ConstraintType::StartNoLaterThan),
        6 => Some(ConstraintType::FinishNoEarlierThan),
        7 => Some(ConstraintType::FinishNoLaterThan),
        _ => None,
    }
}

/// The constraint codes of the format, in their fixed order: 0 as soon as
/// possible, 1 as late as possible, 2 must start on, 3 must finish on, 4
/// start no earlier than, 5 start no later than, 6 finish no earlier than,
/// 7 finish no later than; any other code is no constraint type. Distinct
/// codes give distinct types.
pub proof fn constraint_codes_in_format_order(raw: u16, other: u16)
    ensures
        spec_constraint_type(0) == Some(ConstraintType::AsSoonAsPossible),
        spec_constraint_type(1) == Some(ConstraintType::AsLateAsPossible),
        spec_constraint_type(2) == Some(ConstraintType::MustStartOn),
        spec_constraint_type(3) == Some(ConstraintType::MustFinishOn),
        spec_constraint_type(4) == Some(ConstraintType::StartNoEarlierThan),
        spec_constraint_type(5) == Some(ConstraintType::StartNoLaterThan),
        spec_constraint_type(6) == Some(ConstraintType::FinishNoEarlierThan),
        spec_constraint_type(7) == Some(ConstraintType::FinishNoLaterThan),
        raw > 7 ==> spec_constraint_type(raw) is None,
        raw <= 7 && other <= 7 && raw != other ==> spec_constraint_type(raw) != spec_constraint_type(
            other,
        ),
{
}

/// The bytes of a flag are set in the metadata item `index`.
pub open spec fn meta_byte_has(meta: Seq<Seq<u8>>, index: int, byte: int, mask: u8) -> bool {
    0 <= index < meta.len() && byte < meta[index].len() && meta[index][byte] & mask != 0
}

/// Where each field of a task comes from: the field of each index of the
/// format (ID 23, name 14, WBS 16, notes 15, outline level 249 or else 85,
/// parent 160, duration 29 with its unit 30, work 0, percent complete 32,
/// priority 25, constraint type 17, constraint date 18, deadline 437, cost
/// 5, entered start and finish 1283 and 1284, scheduled start and finish
/// 35 and 36); the constraint code read as its type in the format's order;
/// the milestone flag in byte 8 (mask 0x20) of the metadata up to version
/// 14 and in byte 10 (mask 0x02) after it; the manual flag in byte 8 of the
/// second metadata (mask 0x08 up to version 14, 0x80 after); for a task
/// that is not manual, a scheduled date replaces the entered one.
pub proof fn task_fields_sources(t: Task, src: TaskSource, version: u32, uid: u32, index: int)
    requires
        task_fields(t, src, version, uid, index),
    ensures
        t.uid == uid,
        t.id == (match field_i32(src, uid, index, 23) {
            Some(v) => if v < 0 {
                None
            } else {
                Some(v as u32)
            },
            None => None,
        }),
        opt_str(t.name) == field_text(src, uid, index, 14),
        opt_str(t.wbs) == field_text(src, uid, index, 16),
        opt_str(t.notes) == (match field_text(src, uid, index, 15) {
            Some(n) => if n.len() >= 5 && n.subrange(0, 5) == seq!['{', '\\', 'r', 't', 'f'] {
                None
            } else {
                Some(n)
            },
            None => None,
        }),
        t.outline_level == (if field_u16(src, uid, index, 249) is Some {
            Some(field_u16(src, uid, index, 249)->0 as u32)
        } else if field_u16(src, uid, index, 85) is Some {
            Some(field_u16(src, uid, index, 85)->0 as u32)
        } else {
            None
        }),
        t.parent_uid == (match field_i32(src, uid, index, 160) {
            Some(p) => if p < 0 || p as u32 == uid {
                None
            } else {
                Some(p as u32)
            },
            None => None,
        }),
        t.is_milestone == (if version <= 14 {
            meta_byte_has(src.meta, index, 8, 0x20)
        } else {
            meta_byte_has(src.meta, index, 10, 0x02)
        }),
        ({
            let manual = if version <= 14 {
                meta_byte_has(src.meta2, index, 8, 0x08)
            } else {
                meta_byte_has(src.meta2, index, 8, 0x80)
            };
            let start = field_timestamp(src, uid, index, 1283);
            let sched_start = field_timestamp(src, uid, index, 35);
            let finish = field_timestamp(src, uid, index, 1284);
            let sched_finish = field_timestamp(src, uid, index, 36);
            &&& opt_str(t.start_date) == (if sched_start is Some && (start is None || !manual) {
                sched_start
            } else {
                start
            })
            &&& opt_str(t.finish_date) == (if sched_finish is Some && (finish is None || !manual) {
                sched_finish
            } else {
                finish
            })
        }),
        t.duration == (match field_i32(src, uid, index, 29) {
            Some(tenths) => if tenths == -1 {
                None
            } else {
                Some(
                    Duration {
                        tenths_of_minute: tenths,
                        units: spec_duration_units(
                            if field_u16(src, uid, index, 30) is Some {
                                field_u16(src, uid, index, 30)->0
                            } else {
                                7
                            },
                        ),
                    },
                )
            },
            None => None,
        }),
        t.work == field_u64(src, uid, index, 0),
        t.cost == field_u64(src, uid, index, 5),
        t.percent_complete == (match field_u16(src, uid, index, 32) {
            Some(v) => if v > 100 {
                None
            } else {
                Some(v as u32)
            },
            None => None,
        }),
        t.priority == (match field_u16(src, uid, index, 25) {
            Some(v) => Some(v as u32),
            None => None,
        }),
        t.constraint_type == (match field_u16(src, uid, index, 17) {
            Some(0) => Some(ConstraintType::AsSoonAsPossible),
            Some(1) => Some(ConstraintType::AsLateAsPossible),
            Some(2) => Some(ConstraintType::MustStartOn),
            Some(3) => Some(ConstraintType::MustFinishOn),
            Some(4) => Some(ConstraintType::StartNoEarlierThan),
            Some(5) => Some(ConstraintType::StartNoLaterThan),
            Some(6) => Some(ConstraintType::FinishNoEarlierThan),
            Some(7) => Some(ConstraintType::FinishNoLaterThan),
            _ => None,
        }),
        opt_str(t.constraint_date) == field_timestamp(src, uid, index, 18),
        opt_str(t.deadline) == field_timestamp(src, uid, index, 437),
{
    if let Some(n) = field_text(src, uid, index, 15) {
        assert(starts_with(n, rtf_prefix()) == (n.len() >= 5 && n.subrange(0, 5) == seq![
            '{',
            '\\',
            'r',
            't',
            'f',
        ]));
    }
}

/// The entered date, replaced by the scheduled one when it is absent or
/// when the task is auto-scheduled and a scheduled date exists.
pub open spec fn pick_date(manual: bool, entered: Option<Seq<char>>, scheduled: Option<Seq<char>>) -> Option<
    Seq<char>,
> {
    if entered is None || (!manual && scheduled is Some) {
        scheduled
    } else {
        entered
    }
}

/// Scheduled duration with its unit (days when the unit is absent); `None`
/// when absent or -1.
pub open spec fn spec_task_duration(src: TaskSource, uid: u32, index: int) -> Option<Duration> {
    match field_i32(src, uid, index, task::SCHEDULED_DURATION) {
        None => None,
        Some(t) => if t == -1 {
            None
        } else {
            Some(
                Duration {
                    tenths_of_minute: t,
                    units: spec_duration_units(
                        match field_u16(src, uid, index, task::DURATION_UNITS) {
                            Some(u) => u,
                            None => 7,
                        },
                    ),
                },
            )
        },
    }
}

/// Parent uid: non-negative and other than the task's own uid.
pub open spec fn spec_parent_uid(src: TaskSource, uid: u32, index: int) -> Option<u32> {
    match field_i32(src, uid, index, task::PARENT_TASK_UNIQUE_ID) {
        Some(p) => if p >= 0 && p as u32 != uid {
            Some(p as u32)
        } else {
            None
        },
        None => None,
    }
}

/// Prefix of notes stored as RTF, which are dropped.
pub open spec fn rtf_prefix() -> Seq<char> {
    seq!['{', '\\', 'r', 't', 'f']
}

/// The task `t` holds the fields of the task `uid` stored at item `index`
/// (all but `is_summary` and `predecessors`).
pub open spec fn task_fields(t: Task, src: TaskSource, version: u32, uid: u32, index: int) -> bool {
    let (milestone_bit, manual_bit) = spec_meta_bits(version);
    let manual = spec_bit(item_at(src.meta2, index), manual_bit);
    &&& t.uid == uid
    &&& t.id == (match field_i32(src, uid, index, task::ID) {
        Some(v) => if v >= 0 {
            Some(v as u32)
        } else {
            None
        },
        None => None,
    })
    &&& opt_str(t.name) == field_text(src, uid, index, task::NAME)
    &&& opt_str(t.wbs) == field_text(src, uid, index, task::WBS)
    &&& t.outline_level == (match field_u16(src, uid, index, task::OUTLINE_LEVEL_ALT) {
        Some(v) => Some(v as u32),
        None => match field_u16(src, uid, index, task::OUTLINE_LEVEL) {
            Some(v) => Some(v as u32),
            None => None,
        },
    })
    &&& t.parent_uid == spec_parent_uid(src, uid, index)
    &&& t.is_milestone == spec_bit(item_at(src.meta, index), milestone_bit)
    &&& opt_str(t.start_date) == pick_date(
        manual,
        field_timestamp(src, uid, index, task::START),
        field_timestamp(src, uid, index, task::SCHEDULED_START),
    )
    &&& opt_str(t.finish_date) == pick_date(
        manual,
        field_timestamp(src, uid, index, task::FINISH),
        field_timestamp(src, uid, index, task::SCHEDULED_FINISH),
    )
    &&& t.duration == spec_task_duration(src, uid, index)
    &&& t.work == field_u64(src, uid, index, task::WORK)
    &&& t.percent_complete == (match field_bytes(src, uid, index, task::PERCENT_COMPLETE) {
        Some(b) => spec_percentage(b, 0),
        None => None,
    })
    &&& t.priority == (match field_u16(src, uid, index, task::PRIORITY) {
        Some(v) => Some(v as u32),
        None => None,
    })
    &&& t.constraint_type == (match field_u16(src, uid, index, task::CONSTRAINT_TYPE) {
        Some(v) => spec_constraint_type(v),
        None => None,
    })
    &&& opt_str(t.constraint_date) == field_timestamp(src, uid, index, task::CONSTRAINT_DATE)
    &&& opt_str(t.deadline) == field_timestamp(src, uid, index, task::DEADLINE)
    &&& t.cost == field_u64(src, uid, index, task::COST)
    &&& opt_str(t.notes) == (match field_text(src, uid, index, task::NOTES) {
        Some(s) => if starts_with(s, rtf_prefix()) {
            None
        } else {
            Some(s)
        },
        None => None,
    })
}

fn pick(manual: bool, entered: Option<String>, scheduled: Option<String>) -> (r: Option<String>)
    ensures
        opt_str(r) == pick_date(manual, opt_str(entered), opt_str(scheduled)),
{
    if entered.is_none() || (!manual && scheduled.is_some()) {
        scheduled
    } else {
        entered
    }
}

/// Reads the task `uid` stored at item `index`.
fn read_task(
    fm: &FieldMap,
    b: &TaskBlocks,
    version: u32,
    uid: u32,
    index: usize,
    is_summary: bool,
) -> (t: Task)
    ensures
        task_fields(t, task_source(fm, b), version, uid, index as int),
        t.is_summary == is_summary,
        t.predecessors@.len() == 0,
{
    let r = FieldReader { fm, b, uid, index };
    let (milestone_bit, manual_bit) = meta_bits(version);
    let manual = bit(b.fixed2_meta.item(index), &manual_bit);
    let is_milestone = bit(b.fixed_meta.item(index), &milestone_bit);
    let start_date = pick(manual, r.timestamp(task::START), r.timestamp(task::SCHEDULED_START));
    let finish_date = pick(
        manual,
        r.timestamp(task::FINISH),
        r.timestamp(task::SCHEDULED_FINISH),
    );
    let duration = match r.i32(task::SCHEDULED_DURATION) {
        None => None,
        Some(tenths) => if tenths == -1 {
            None
        } else {
            let raw_units = match r.u16(task::DURATION_UNITS) {
                Some(u) => u,
                None => 7,
            };
            Some(Duration { tenths_of_minute: tenths, units: duration_units(raw_units) })
        },
    };
    let parent_uid = match r.i32(task::PARENT_TASK_UNIQUE_ID) {
        Some(p) => if p >= 0 && p as u32 != uid {
            Some(p as u32)
        } else {
            None
        },
        None => None,
    };
    let rtf: [char; 5] = ['{', '\\', 'r', 't', 'f'];
    assert(rtf@ =~= rtf_prefix());
    let notes = match r.string_chars(task::NOTES) {
        Some(chars) => if has_prefix(chars.as_slice(), &rtf) {
            None
        } else {
            Some(string_from_chars(chars.as_slice()))
        },
        None => None,
    };
    let id = match r.i32(task::ID) {
        Some(v) => if v >= 0 {
            Some(v as u32)
        } else {
            None
        },
        None => None,
    };
    let outline_level = match r.u16(task::OUTLINE_LEVEL_ALT) {
        Some(v) => Some(v as u32),
        None => match r.u16(task::OUTLINE_LEVEL) {
            Some(v) => Some(v as u32),
            None => None,
        },
    };
    let percent_complete = match r.bytes(task::PERCENT_COMPLETE) {
        Some(bytes) => percentage(bytes, 0),
        None => None,
    };
    let priority = match r.u16(task::PRIORITY) {
        Some(v) => Some(v as u32),
        None => None,
    };
    let constraint = match r.u16(task::CONSTRAINT_TYPE) {
        Some(v) => constraint_type(v),
        None => None,
    };
    Task {
        uid,
        id,
        name: r.string(task::NAME),
        wbs: r.string(task::WBS),
        outline_level,
        parent_uid,
        is_summary,
        is_milestone,
        start_date,
        finish_date,
        duration,
        work: r.u64(task::WORK),
        percent_complete,
        priority,
        constraint_type: constraint,
        constraint_date: r.timestamp(task::CONSTRAINT_DATE),
        deadline: r.timestamp(task::DEADLINE),
        cost: r.u64(task::COST),
        notes,
        predecessors: Vec::new(),
    }
}

/// Item index of a task that the model holds: mapped to an item (not
/// deleted) whose fixed data is readable and is not a null-task block.
pub open spec fn task_entry(src: TaskSource, map: Map<u32, Option<usize>>, uid: u32) -> Option<usize> {
    if map.contains_key(uid) && map[uid] is Some && opt_at(src.data, map[uid]->0 as int) is Some
        && opt_at(src.data, map[uid]->0 as int)->0.len() != 16 {
        map[uid]
    } else {
        None
    }
}

/// `r` holds the tasks of the task map, in ascending uid order, each with
/// its fields; a task is a summary exactly when another task names it as
/// parent; no dependencies are attached yet.
pub open spec fn tasks_read(r: Seq<Task>, src: TaskSource, version: u32) -> bool {
    let map = spec_task_map(src);
    &&& forall|k: int, l: int| 0 <= k < l < r.len() ==> r[k].uid < r[l].uid
    &&& forall|k: int|
        0 <= k < r.len() ==> task_entry(src, map, #[trigger] r[k].uid) is Some && task_fields(
            r[k],
            src,
            version,
            r[k].uid,
            task_entry(src, map, r[k].uid)->0 as int,
        )
    &&& forall|uid: u32|
        task_entry(src, map, uid) is Some ==> exists|k: int| 0 <= k < r.len() && #[trigger] r[k].uid
            == uid
    &&& forall|k: int|
        0 <= k < r.len() ==> #[trigger] r[k].is_summary == exists|j: int|
            0 <= j < r.len() && r[j].parent_uid == Some(r[k].uid)
    &&& forall|k: int| 0 <= k < r.len() ==> (#[trigger] r[k]).predecessors@.len() == 0
}

/// A stored text, when present, is non-empty and its own trim.
pub open spec fn clean_text(t: Option<String>) -> bool {
    opt_str(t) matches Some(s) ==> s.len() > 0 && trim(s) == s
}

/// What every task that `read_tasks` gives satisfies: uids strictly
/// ascending; no task is its own parent; no dependencies yet; percent
/// complete at most 100; an id, when present, fits in an `i32`; name, WBS
/// and notes are non-empty and trimmed when present; notes are never RTF.
pub proof fn tasks_read_are_clean(r: Seq<Task>, src: TaskSource, version: u32)
    requires
        tasks_read(r, src, version),
    ensures
        forall|k: int, l: int| 0 <= k < l < r.len() ==> r[k].uid < r[l].uid,
        forall|k: int|
            0 <= k < r.len() ==> {
                let t = #[trigger] r[k];
                &&& t.parent_uid != Some(t.uid)
                &&& t.predecessors@.len() == 0
                &&& (t.percent_complete matches Some(p) ==> p <= 100)
                &&& (t.id matches Some(i) ==> i <= i32::MAX)
                &&& clean_text(t.name)
                &&& clean_text(t.wbs)
                &&& clean_text(t.notes)
                &&& (opt_str(t.notes) matches Some(n) ==> !starts_with(n, rtf_prefix()))
            },
{
    let map = spec_task_map(src);
    assert forall|k: int| 0 <= k < r.len() implies {
        let t = #[trigger] r[k];
        &&& t.parent_uid != Some(t.uid)
        &&& t.predecessors@.len() == 0
        &&& (t.percent_complete matches Some(p) ==> p <= 100)
        &&& (t.id matches Some(i) ==> i <= i32::MAX)
        &&& clean_text(t.name)
        &&& clean_text(t.wbs)
        &&& clean_text(t.notes)
        &&& (opt_str(t.notes) matches Some(n) ==> !starts_with(n, rtf_prefix()))
    } by {
        let t = r[k];
        let index = task_entry(src, map, t.uid)->0 as int;
        assert(task_fields(t, src, version, t.uid, index));
        text_is_clean(src, t.uid, index, task::NAME);
        text_is_clean(src, t.uid, index, task::WBS);
        text_is_clean(src, t.uid, index, task::NOTES);
    }
}

/// A text field, when present, is non-empty and its own trim.
proof fn text_is_clean(src: TaskSource, uid: u32, index: int, field: u16)
    ensures
        field_text(src, uid, index, field) matches Some(s) ==> s.len() > 0 && trim(s) == s,
{
    if let Some(b) = field_bytes(src, uid, index, field) {
        if let Some(s) = spec_unicode_string(b, 0) {
            trim_is_idempotent(s);
        }
    }
}

fn parent_of(fm: &FieldMap, b: &TaskBlocks, uid: u32, index: usize) -> (r: Option<u32>)
    ensures
        r == spec_parent_uid(task_source(fm, b), uid, index as int),
{
    let reader = FieldReader { fm, b, uid, index };
    match reader.i32(task::PARENT_TASK_UNIQUE_ID) {
        Some(p) => if p >= 0 && p as u32 != uid {
            Some(p as u32)
        } else {
            None
        },
        None => None,
    }
}

/// The `(uid, index)` pairs of the task entries among `uids`, in order.
pub open spec fn entries_of(src: TaskSource, map: Map<u32, Option<usize>>, uids: Seq<u32>) -> Seq<
    (u32, usize),
>
    decreases uids.len(),
{
    if uids.len() == 0 {
        Seq::empty()
    } else {
        let rest = entries_of(src, map, uids.drop_last());
        match task_entry(src, map, uids.last()) {
            Some(index) => rest.push((uids.last(), index)),
            None => rest,
        }
    }
}

/// Parent uids named by the given entries.
pub open spec fn parents_of(src: TaskSource, entries: Seq<(u32, usize)>) -> Set<u32>
    decreases entries.len(),
{
    if entries.len() == 0 {
        Set::empty()
    } else {
        let rest = parents_of(src, entries.drop_last());
        match spec_parent_uid(src, entries.last().0, entries.last().1 as int) {
            Some(p) => rest.insert(p),
            None => rest,
        }
    }
}

proof fn lemma_entries_of(src: TaskSource, map: Map<u32, Option<usize>>, uids: Seq<u32>)
    requires
        forall|a: int, b: int| 0 <= a < b < uids.len() ==> uids[a] < uids[b],
    ensures
        forall|k: int|
            0 <= k < entries_of(src, map, uids).len() ==> task_entry(
                src,
                map,
                (#[trigger] entries_of(src, map, uids)[k]).0,
            ) == Some(entries_of(src, map, uids)[k].1) && uids.contains(
                entries_of(src, map, uids)[k].0,
            ),
        forall|k: int, l: int|
            0 <= k < l < entries_of(src, map, uids).len() ==> (#[trigger] entries_of(
                src,
                map,
                uids,
            )[k]).0 < (#[trigger] entries_of(src, map, uids)[l]).0,
        forall|j: int|
            0 <= j < uids.len() && task_entry(src, map, #[trigger] uids[j]) is Some ==> exists|k: int|
                0 <= k < entries_of(src, map, uids).len() && entries_of(src, map, uids)[k].0
                    == uids[j],
    decreases uids.len(),
{
    if uids.len() > 0 {
        let init = uids.drop_last();
        lemma_entries_of(src, map, init);
        let rest = entries_of(src, map, init);
        let e = entries_of(src, map, uids);
        assert forall|k: int| 0 <= k < rest.len() implies uids.contains(#[trigger] rest[k].0)
            && rest[k].0 < uids.last() by {
            assert(init.contains(rest[k].0));
            let j = choose|j: int| 0 <= j < init.len() && init[j] == rest[k].0;
            assert(uids[j] == init[j]);
        }
        assert forall|j: int|
            0 <= j < uids.len() && task_entry(src, map, #[trigger] uids[j]) is Some implies exists|
            k: int,
        | 0 <= k < e.len() && e[k].0 == uids[j] by {
            if j < init.len() {
                assert(init[j] == uids[j]);
                let k = choose|k: int| 0 <= k < rest.len() && rest[k].0 == init[j];
                assert(e[k] == rest[k]);
            } else {
                assert(e[e.len() - 1].0 == uids[j]);
            }
        }
        assert forall|k: int| 0 <= k < e.len() implies task_entry(
            src,
            map,
            (#[trigger] e[k]).0,
        ) == Some(e[k].1) && uids.contains(e[k].0) by {
            if k < rest.len() {
                assert(e[k] == rest[k]);
            } else {
                assert(uids[uids.len() - 1] == uids.last());
            }
        }
    }
}

proof fn lemma_parents_of(src: TaskSource, entries: Seq<(u32, usize)>, p: u32)
    ensures
        parents_of(src, entries).contains(p) <==> exists|k: int|
            0 <= k < entries.len() && spec_parent_uid(
                src,
                #[trigger] entries[k].0,
                entries[k].1 as int,
            ) == Some(p),
    decreases entries.len(),
{
    if entries.len() > 0 {
        let init = entries.drop_last();
        lemma_parents_of(src, init, p);
        if exists|k: int|
            0 <= k < init.len() && spec_parent_uid(src, #[trigger] init[k].0, init[k].1 as int)
                == Some(p) {
            let k = choose|k: int|
                0 <= k < init.len() && spec_parent_uid(src, #[trigger] init[k].0, init[k].1 as int)
                    == Some(p);
            assert(entries[k] == init[k]);
        }
        if exists|k: int|
            0 <= k < entries.len() && spec_parent_uid(
                src,
                #[trigger] entries[k].0,
                entries[k].1 as int,
            ) == Some(p) {
            let k = choose|k: int|
                0 <= k < entries.len() && spec_parent_uid(
                    src,
                    #[trigger] entries[k].0,
                    entries[k].1 as int,
                ) == Some(p);
            if k < init.len() {
                assert(entries[k] == init[k]);
            }
        }
    }
}

/// The task entries in ascending uid order, and the parent uids they name.
fn collect_entries(
    fm: &FieldMap,
    blocks: &TaskBlocks,
    task_map: &BTreeMap<u32, Option<usize>>,
    uids: &Vec<u32>,
) -> (r: (Vec<(u32, usize)>, BTreeSet<u32>))
    requires
        uids@.to_set() == task_map@.dom(),
    ensures
        r.0@ == entries_of(task_source(fm, blocks), task_map@, uids@),
        r.1@ == parents_of(task_source(fm, blocks), r.0@),
{
    let ghost src = task_source(fm, blocks);
    let ghost map = task_map@;
    let mut entries: Vec<(u32, usize)> = Vec::new();
    let mut parents: BTreeSet<u32> = BTreeSet::new();
    let mut i: usize = 0;
    assert(parents@ =~= Set::<u32>::empty());
    while i < uids.len()
        invariant
            i <= uids@.len(),
            src == task_source(fm, blocks),
            map == task_map@,
            uids@.to_set() == map.dom(),
            entries@ == entries_of(src, map, uids@.take(i as int)),
            parents@ == parents_of(src, entries@),
        decreases uids@.len() - i,
    {
        let uid = uids[i];
        assert(uids@.take(i + 1).drop_last() =~= uids@.take(i as int));
        assert(uids@.take(i + 1).last() == uid);
        assert(uids@.to_set().contains(uid)) by {
            assert(uids@.contains(uid));
        }
        let slot = *task_map.get(&uid).unwrap();
        let kept = match slot {
            None => false,
            Some(index) => match blocks.fixed_data.item(index) {
                None => false,
                Some(d) => d.len() != NULL_TASK_BLOCK_SIZE,
            },
        };
        if kept {
            let index = slot.unwrap();
            let ghost before = entries@;
            entries.push((uid, index));
            assert(entries@.drop_last() =~= before);
            if let Some(p) = parent_of(fm, blocks, uid, index) {
                parents.insert(p);
            }
        }
        i = i + 1;
    }
    assert(uids@.take(uids@.len() as int) =~= uids@);
    (entries, parents)
}

/// Reads the tasks of the task blocks.
pub fn read_tasks(fm: &FieldMap, blocks: &TaskBlocks, application_version: u32) -> (r: Vec<Task>)
    ensures
        tasks_read(r@, task_source(fm, blocks), application_version),
{
    let ghost src = task_source(fm, blocks);
    let task_map = create_task_map(fm, blocks);
    let ghost map = task_map@;
    let uids = sorted_keys(&task_map);
    let (entries, parents) = collect_entries(fm, blocks, &task_map, &uids);
    proof {
        lemma_entries_of(src, map, uids@);
    }
    let mut tasks: Vec<Task> = Vec::new();
    let mut k: usize = 0;
    while k < entries.len()
        invariant
            k <= entries@.len(),
            tasks@.len() == k,
            src == task_source(fm, blocks),
            forall|a: int|
                0 <= a < k ==> (#[trigger] tasks@[a]).uid == entries@[a].0 && task_fields(
                    tasks@[a],
                    src,
                    application_version,
                    entries@[a].0,
                    entries@[a].1 as int,
                ) && tasks@[a].is_summary == parents@.contains(entries@[a].0)
                    && tasks@[a].predecessors@.len() == 0,
        decreases entries@.len() - k,
    {
        let (uid, index) = entries[k];
        let t = read_task(fm, blocks, application_version, uid, index, parents.contains(&uid));
        tasks.push(t);
        k = k + 1;
    }
    proof {
        let r = tasks@;
        assert forall|uid: u32| task_entry(src, map, uid) is Some implies exists|k: int|
            0 <= k < r.len() && #[trigger] r[k].uid == uid by {
            assert(map.dom().contains(uid));
            assert(uids@.to_set().contains(uid));
            let j = choose|j: int| 0 <= j < uids@.len() && uids@[j] == uid;
            assert(task_entry(src, map, uids@[j]) is Some);
            let k = choose|k: int| 0 <= k < entries@.len() && entries@[k].0 == uids@[j];
            assert(r[k].uid == uid);
        }
        assert forall|k: int| 0 <= k < r.len() implies #[trigger] r[k].is_summary == exists|j: int|
            0 <= j < r.len() && r[j].parent_uid == Some(r[k].uid) by {
            lemma_parents_of(src, entries@, entries@[k].0);
            if parents@.contains(entries@[k].0) {
                let j = choose|j: int|
                    0 <= j < entries@.len() && spec_parent_uid(
                        src,
                        #[trigger] entries@[j].0,
                        entries@[j].1 as int,
                    ) == Some(entries@[k].0);
                assert(r[j].parent_uid == Some(r[k].uid));
            }
            if exists|j: int| 0 <= j < r.len() && r[j].parent_uid == Some(r[k].uid) {
                let j = choose|j: int| 0 <= j < r.len() && r[j].parent_uid == Some(r[k].uid);
                assert(spec_parent_uid(src, entries@[j].0, entries@[j].1 as int) == Some(
                    entries@[k].0,
                ));
            }
        }
        assert forall|k: int| 0 <= k < r.len() implies task_entry(src, map, #[trigger] r[k].uid)
            is Some && task_fields(
            r[k],
            src,
            application_version,
            r[k].uid,
            task_entry(src, map, r[k].uid)->0 as int,
        ) by {
            assert(entries@[k].0 == r[k].uid);
        }
    }
    tasks
}

} // verus!
