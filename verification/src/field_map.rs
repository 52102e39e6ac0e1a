//! FieldMap: where each field lives within the blocks of a file.
//!
//! The map is serialized inside every `.mpp` (the `*_FIELD_MAP` keys of the
//! project Props) as 28-byte entries; the offsets differ between files. In
//! MPP14 the var data key of a field is its index (`type_value & 0xFFFF`).

pub mod assignment;
pub mod resource;
pub mod task;

use std::collections::HashMap;

use vstd::prelude::*;

use crate::blocks::Props;
use crate::error::{is_corrupt, MppError};
use crate::util::{get_i32, get_u16, i32_of_bits, le_u16, le_u32};

verus! {

/// Props keys of the serialized task field map.
pub const TASK_KEYS: [i32; 2] = [131092, 50331668];

/// Props keys of the serialized resource field map.
pub const RESOURCE_KEYS: [i32; 2] = [131093, 50331669];

/// Props keys of the serialized assignment field map.
pub const ASSIGNMENT_KEYS: [i32; 2] = [131095, 50331671];

/// Field type base of task fields.
pub const TASK_FIELD_BASE: i32 = 0x0B40_0000;

/// Field type base of resource fields.
pub const RESOURCE_FIELD_BASE: i32 = 0x0C40_0000;

/// Field type base of assignment fields.
pub const ASSIGNMENT_FIELD_BASE: i32 = 0x0F40_0000;

/// Where a field is stored.
#[derive(Debug, Clone, Copy, PartialEq, Eq, Structural)]
pub enum FieldLocation {
    /// In the fixed data: block 0 (FixedData) or 1 (Fixed2Data), at a byte
    /// offset within the item.
    FixedData { block: usize, offset: usize },
    /// In the variable data, under the given key.
    VarData { key: u16 },
    /// A boolean flag of the fixed metadata, read at known positions.
    MetaData,
    Unknown,
}

/// Field index -> location, plus a lower bound of the size of the items
/// of fixed data blocks 0 and 1.
#[derive(Debug)]
pub struct FieldMap {
    items: HashMap<u16, FieldLocation>,
    max_fixed_size: [usize; 2],
}

/// Size in bytes of the fixed fields whose width is known; 2 for the
/// others (a lower bound).
pub open spec fn spec_fixed_field_size(field_index: u16) -> usize {
    if field_index == task::SCHEDULED_START || field_index == task::SCHEDULED_FINISH
        || field_index == task::START || field_index == task::FINISH || field_index
        == task::CONSTRAINT_DATE || field_index == task::DEADLINE {
        4
    } else if field_index == task::ID || field_index == task::UNIQUE_ID || field_index
        == task::PARENT_TASK_UNIQUE_ID || field_index == task::SCHEDULED_DURATION {
        4
    } else if field_index == task::WORK || field_index == task::COST {
        8
    } else {
        2
    }
}

/// Size in bytes of a fixed field.
pub fn fixed_field_size(field_index: u16) -> (r: usize)
    ensures
        r == spec_fixed_field_size(field_index),
{
    if field_index == task::SCHEDULED_START || field_index == task::SCHEDULED_FINISH
        || field_index == task::START || field_index == task::FINISH || field_index
        == task::CONSTRAINT_DATE || field_index == task::DEADLINE {
        4
    } else if field_index == task::ID || field_index == task::UNIQUE_ID || field_index
        == task::PARENT_TASK_UNIQUE_ID || field_index == task::SCHEDULED_DURATION {
        4
    } else if field_index == task::WORK || field_index == task::COST {
        8
    } else {
        2
    }
}

/// State of the scan of the serialized map.
pub struct ScanState {
    pub items: Map<u16, FieldLocation>,
    pub max0: int,
    pub max1: int,
    pub last_offset: int,
    pub block: int,
}

/// `true` when the entry's type value belongs to the entity of `base`.
pub open spec fn same_entity(type_value: i32, base: i32) -> bool {
    (type_value & 0x7FFF_0000) == (base & 0x7FFF_0000)
}

/// One 28-byte entry at `index`: it is skipped when it belongs to another
/// entity; categories 0x0B and 0x64 are metadata flags; a fixed offset
/// other than 65535 places the field in the fixed data, moving to the next
/// block whenever the offset goes back; otherwise a non-zero index lives
/// in the variable data under its own index.
pub open spec fn field_map_step(data: Seq<u8>, base: i32, index: int, st: ScanState) -> ScanState {
    let offset = le_u16(data, index + 4) as int;
    let type_value = i32_of_bits(le_u32(data, index + 12));
    let category = le_u16(data, index + 20);
    let field = (type_value & 0xFFFF) as u16;
    if !same_entity(type_value, base) {
        st
    } else if category == 0x0B || category == 0x64 {
        ScanState { items: st.items.insert(field, FieldLocation::MetaData), ..st }
    } else if offset != 65535 {
        let block = if offset < st.last_offset {
            st.block + 1
        } else {
            st.block
        };
        let end = offset + spec_fixed_field_size(field);
        let max0 = if block == 0 && end > st.max0 {
            end
        } else {
            st.max0
        };
        let max1 = if block == 1 && end > st.max1 {
            end
        } else {
            st.max1
        };
        ScanState {
            items: st.items.insert(
                field,
                FieldLocation::FixedData {
                    block: if block < 1 {
                        block as usize
                    } else {
                        1
                    },
                    offset: offset as usize,
                },
            ),
            max0,
            max1,
            last_offset: offset,
            block,
        }
    } else if field != 0 {
        ScanState { items: st.items.insert(field, FieldLocation::VarData { key: field }), ..st }
    } else {
        ScanState { items: st.items.insert(field, FieldLocation::Unknown), ..st }
    }
}

/// Scan of the entries from byte `index` on.
pub open spec fn field_map_scan(data: Seq<u8>, base: i32, index: int, st: ScanState) -> ScanState
    decreases data.len() - index,
{
    if index + 28 > data.len() || index < 0 {
        st
    } else {
        field_map_scan(data, base, index + 28, field_map_step(data, base, index, st))
    }
}

/// Result of scanning a whole serialized field map.
pub open spec fn spec_field_map(data: Seq<u8>, base: i32) -> ScanState {
    field_map_scan(
        data,
        base,
        0,
        ScanState { items: Map::empty(), max0: 0, max1: 0, last_offset: 0, block: 0 },
    )
}

/// Fixed offset of entry `k` (`u16` at byte 4 of its 28 bytes).
pub open spec fn entry_offset(data: Seq<u8>, k: int) -> int {
    le_u16(data, 28 * k + 4) as int
}

/// Type value of entry `k` (`i32` at byte 12).
pub open spec fn entry_type_value(data: Seq<u8>, k: int) -> i32 {
    i32_of_bits(le_u32(data, 28 * k + 12))
}

/// Category of entry `k` (`u16` at byte 20).
pub open spec fn entry_category(data: Seq<u8>, k: int) -> u16 {
    le_u16(data, 28 * k + 20)
}

/// Field index of entry `k` (the low word of its type value).
pub open spec fn entry_field(data: Seq<u8>, k: int) -> u16 {
    (entry_type_value(data, k) & 0xFFFF) as u16
}

/// Entry `k` belongs to the entity of `base` and places its field in the
/// fixed data.
pub open spec fn entry_is_fixed(data: Seq<u8>, base: i32, k: int) -> bool {
    &&& same_entity(entry_type_value(data, k), base)
    &&& entry_category(data, k) != 0x0B && entry_category(data, k) != 0x64
    &&& entry_offset(data, k) != 65535
}

/// Block counter and last fixed offset after the first `n` entries: the
/// counter grows by one at each fixed entry whose offset is below the
/// previous fixed entry's.
pub open spec fn rewinds(data: Seq<u8>, base: i32, n: int) -> (int, int)
    decreases n,
{
    if n <= 0 {
        (0, 0)
    } else {
        let (b, last) = rewinds(data, base, n - 1);
        if entry_is_fixed(data, base, n - 1) {
            (
                if entry_offset(data, n - 1) < last {
                    b + 1
                } else {
                    b
                },
                entry_offset(data, n - 1),
            )
        } else {
            (b, last)
        }
    }
}

/// Block counter of entry `k` (the number of rewinds up to and including
/// it).
pub open spec fn entry_block(data: Seq<u8>, base: i32, k: int) -> int {
    rewinds(data, base, k + 1).0
}

/// Largest end (offset plus field size) of the fixed entries among the
/// first `n` whose block counter is `b`; 0 when there is none.
pub open spec fn max_end(data: Seq<u8>, base: i32, b: int, n: int) -> int
    decreases n,
{
    if n <= 0 {
        0
    } else {
        let m = max_end(data, base, b, n - 1);
        let end = entry_offset(data, n - 1) + spec_fixed_field_size(entry_field(data, n - 1));
        if entry_is_fixed(data, base, n - 1) && entry_block(data, base, n - 1) == b && end > m {
            end
        } else {
            m
        }
    }
}

/// The last of the first `n` entries of the entity of `base` for `field`.
pub open spec fn last_field_entry(data: Seq<u8>, base: i32, field: u16, n: int) -> Option<int>
    decreases n,
{
    if n <= 0 {
        None
    } else if same_entity(entry_type_value(data, n - 1), base) && entry_field(data, n - 1) == field {
        Some(n - 1)
    } else {
        last_field_entry(data, base, field, n - 1)
    }
}

/// Location given by entry `k`: metadata for categories 0x0B and 0x64;
/// fixed data at its offset, in block 0 before the first rewind and block
/// 1 after it; else variable data under the field's own index, or Unknown
/// for field 0.
pub open spec fn entry_location(data: Seq<u8>, base: i32, k: int) -> FieldLocation {
    let field = entry_field(data, k);
    if entry_category(data, k) == 0x0B || entry_category(data, k) == 0x64 {
        FieldLocation::MetaData
    } else if entry_offset(data, k) != 65535 {
        let b = entry_block(data, base, k);
        FieldLocation::FixedData {
            block: if b < 1 {
                b as usize
            } else {
                1
            },
            offset: entry_offset(data, k) as usize,
        }
    } else if field != 0 {
        FieldLocation::VarData { key: field }
    } else {
        FieldLocation::Unknown
    }
}

proof fn lemma_rewinds_nonneg(data: Seq<u8>, base: i32, n: int)
    ensures
        rewinds(data, base, n).0 >= 0,
    decreases n,
{
    if n > 0 {
        lemma_rewinds_nonneg(data, base, n - 1);
    }
}

proof fn lemma_field_map_scan(data: Seq<u8>, base: i32, i: int, st: ScanState)
    requires
        0 <= i <= data.len() / 28,
        st.block == rewinds(data, base, i).0,
        st.last_offset == rewinds(data, base, i).1,
        st.max0 == max_end(data, base, 0, i),
        st.max1 == max_end(data, base, 1, i),
    ensures
        ({
            let r = field_map_scan(data, base, 28 * i, st);
            let n = (data.len() / 28) as int;
            &&& r.max0 == max_end(data, base, 0, n)
            &&& r.max1 == max_end(data, base, 1, n)
            &&& forall|f: u16|
                #[trigger] spec_location(r.items, f) == (match last_field_entry(data, base, f, n) {
                    Some(k) => if k >= i {
                        entry_location(data, base, k)
                    } else {
                        spec_location(st.items, f)
                    },
                    None => spec_location(st.items, f),
                })
        }),
    decreases data.len() / 28 - i,
{
    let n = (data.len() / 28) as int;
    if i < n {
        let next = field_map_step(data, base, 28 * i, st);
        lemma_rewinds_nonneg(data, base, i);
        assert(28 * i + 28 == 28 * (i + 1));
        lemma_field_map_scan(data, base, i + 1, next);
        let r = field_map_scan(data, base, 28 * i, st);
        assert forall|f: u16| #[trigger] spec_location(r.items, f) == (match last_field_entry(
            data,
            base,
            f,
            n,
        ) {
            Some(k) => if k >= i {
                entry_location(data, base, k)
            } else {
                spec_location(st.items, f)
            },
            None => spec_location(st.items, f),
        }) by {
            lemma_last_field_entry(data, base, f, n);
            let matches_i = same_entity(entry_type_value(data, i), base) && entry_field(data, i)
                == f;
            assert(entry_offset(data, i) == le_u16(data, 28 * i + 4) as int);
            assert(entry_block(data, base, i) == rewinds(data, base, i + 1).0);
            if matches_i {
                assert(spec_location(next.items, f) == entry_location(data, base, i));
            } else {
                assert(spec_location(next.items, f) == spec_location(st.items, f));
            }
        }
    } else {
        assert forall|f: u16| #[trigger] spec_location(st.items, f) == (match last_field_entry(
            data,
            base,
            f,
            n,
        ) {
            Some(k) => if k >= i {
                entry_location(data, base, k)
            } else {
                spec_location(st.items, f)
            },
            None => spec_location(st.items, f),
        }) by {
            lemma_last_field_entry(data, base, f, n);
        }
    }
}

proof fn lemma_last_field_entry(data: Seq<u8>, base: i32, f: u16, n: int)
    ensures
        last_field_entry(data, base, f, n) matches Some(k) ==> 0 <= k < n && same_entity(
            entry_type_value(data, k),
            base,
        ) && entry_field(data, k) == f && forall|j: int|
            k < j < n ==> !(same_entity(entry_type_value(data, j), base) && entry_field(data, j)
                == f),
        last_field_entry(data, base, f, n) is None ==> forall|j: int|
            0 <= j < n ==> !(same_entity(entry_type_value(data, j), base) && entry_field(data, j)
                == f),
    decreases n,
{
    if n > 0 {
        lemma_last_field_entry(data, base, f, n - 1);
    }
}

/// What a scanned field map records, entry by entry: a field's location
/// is given by the last complete 28-byte entry of the entity for that
/// field (`Unknown` when there is none); a fixed entry lies in block 0
/// before the first rewind of fixed offsets and in block 1 after it; the
/// size bound of block 0 and of block 1 is the largest offset plus field
/// size of the fixed entries with that block counter (0 when there is
/// none).
pub proof fn field_map_follows_entries(data: Seq<u8>, base: i32)
    ensures
        ({
            let r = spec_field_map(data, base);
            let n = (data.len() / 28) as int;
            &&& r.max0 == max_end(data, base, 0, n)
            &&& r.max1 == max_end(data, base, 1, n)
            &&& forall|f: u16|
                #[trigger] spec_location(r.items, f) == (match last_field_entry(data, base, f, n) {
                    Some(k) => entry_location(data, base, k),
                    None => FieldLocation::Unknown,
                })
        }),
{
    let st = ScanState { items: Map::empty(), max0: 0, max1: 0, last_offset: 0, block: 0 };
    lemma_field_map_scan(data, base, 0, st);
    let n = (data.len() / 28) as int;
    assert forall|f: u16| #[trigger]
        spec_location(spec_field_map(data, base).items, f) == (match last_field_entry(
            data,
            base,
            f,
            n,
        ) {
            Some(k) => entry_location(data, base, k),
            None => FieldLocation::Unknown,
        }) by {
        lemma_last_field_entry(data, base, f, n);
    }
}

/// Location of a field in a map: `Unknown` when absent.
pub open spec fn spec_location(items: Map<u16, FieldLocation>, field: u16) -> FieldLocation {
    if items.contains_key(field) {
        items[field]
    } else {
        FieldLocation::Unknown
    }
}

/// Bytes of the first of `keys` that the Props holds.
pub open spec fn first_present(props: Map<i32, Seq<u8>>, keys: Seq<i32>) -> Option<Seq<u8>> {
    if keys.len() > 0 && props.contains_key(keys[0]) {
        Some(props[keys[0]])
    } else if keys.len() > 1 && props.contains_key(keys[1]) {
        Some(props[keys[1]])
    } else {
        None
    }
}

impl FieldMap {
    /// Locations by field index.
    pub closed spec fn locations(&self) -> Map<u16, FieldLocation> {
        self.items@
    }

    /// Lower bound of the item size of fixed data block 0 and 1.
    pub closed spec fn max_sizes(&self) -> (int, int) {
        (self.max_fixed_size@[0] as int, self.max_fixed_size@[1] as int)
    }

    /// The map holds exactly the result of a scan.
    pub open spec fn is_scan_of(&self, st: ScanState) -> bool {
        &&& self.locations() == st.items
        &&& self.max_sizes() == (st.max0, st.max1)
    }

    /// Field map of the tasks.
    pub fn for_tasks(props: &Props) -> (r: Result<FieldMap, MppError>)
        ensures
            Self::created(props@, TASK_KEYS@, TASK_FIELD_BASE, "TASK_FIELD_MAP"@, r),
    {
        Self::create(props, &TASK_KEYS, TASK_FIELD_BASE, "TASK_FIELD_MAP")
    }

    /// Field map of the resources.
    pub fn for_resources(props: &Props) -> (r: Result<FieldMap, MppError>)
        ensures
            Self::created(props@, RESOURCE_KEYS@, RESOURCE_FIELD_BASE, "RESOURCE_FIELD_MAP"@, r),
    {
        Self::create(props, &RESOURCE_KEYS, RESOURCE_FIELD_BASE, "RESOURCE_FIELD_MAP")
    }

    /// Field map of the assignments.
    pub fn for_assignments(props: &Props) -> (r: Result<FieldMap, MppError>)
        ensures
            Self::created(
                props@,
                ASSIGNMENT_KEYS@,
                ASSIGNMENT_FIELD_BASE,
                "ASSIGNMENT_FIELD_MAP"@,
                r,
            ),
    {
        Self::create(props, &ASSIGNMENT_KEYS, ASSIGNMENT_FIELD_BASE, "ASSIGNMENT_FIELD_MAP")
    }

    /// Outcome of building the map of the entity `base` from the first
    /// present Props entry among `keys`: a `Corrupt` error in `context` when
    /// none is present (the file carries no serialized map).
    pub open spec fn created(
        props: Map<i32, Seq<u8>>,
        keys: Seq<i32>,
        base: i32,
        context: Seq<char>,
        r: Result<FieldMap, MppError>,
    ) -> bool {
        match first_present(props, keys) {
            Some(data) => r matches Ok(fm) && fm.is_scan_of(spec_field_map(data, base)),
            None => r matches Err(e) && is_corrupt(
                e,
                context,
                "el archivo no trae field map serializado (defaults no implementados)"@,
            ),
        }
    }

    fn create(props: &Props, keys: &[i32; 2], base: i32, context: &str) -> (r: Result<
        FieldMap,
        MppError,
    >)
        ensures
            Self::created(props@, keys@, base, context@, r),
    {
        let data = match props.byte_array(keys[0]) {
            Some(d) => d,
            None => match props.byte_array(keys[1]) {
                Some(d) => d,
                None => {
                    return Err(
                        MppError::corrupt(
                            context,
                            "el archivo no trae field map serializado (defaults no implementados)".to_owned(),
                        ),
                    );
                },
            },
        };
        Ok(Self::parse(data, base))
    }

    /// Scans a serialized field map, keeping the entries of the entity
    /// whose field type base is `base`.
    pub fn parse(data: &[u8], base: i32) -> (r: FieldMap)
        ensures
            r.is_scan_of(spec_field_map(data@, base)),
    {
        let mut items: HashMap<u16, FieldLocation> = HashMap::new();
        let mut max_fixed_size: [usize; 2] = [0, 0];
        let mut last_offset: i32 = 0;
        let mut block: usize = 0;
        let mut index: usize = 0;
        let data_len = data.len();
        while data_len >= 28 && index <= data_len - 28
            invariant
                data_len == data@.len(),
                index % 28 == 0,
                block <= index / 28,
                index <= data_len,
                0 <= last_offset <= 65535,
                max_fixed_size@.len() == 2,
                field_map_scan(
                    data@,
                    base,
                    index as int,
                    ScanState {
                        items: items@,
                        max0: max_fixed_size@[0] as int,
                        max1: max_fixed_size@[1] as int,
                        last_offset: last_offset as int,
                        block: block as int,
                    },
                ) == spec_field_map(data@, base),
            decreases data_len - index,
        {
            let data_block_offset = get_u16(data, index + 4).unwrap() as i32;
            let type_value = get_i32(data, index + 12).unwrap();
            let category = get_u16(data, index + 20).unwrap();
            if (type_value & 0x7FFF_0000) != (base & 0x7FFF_0000) {
                index = index + 28;
                continue;
            }
            let field_index = (type_value & 0xFFFF) as u16;
            let location = if category == 0x0B || category == 0x64 {
                FieldLocation::MetaData
            } else if data_block_offset != 65535 {
                if data_block_offset < last_offset {
                    block = block + 1;
                }
                last_offset = data_block_offset;
                let end = data_block_offset as usize + fixed_field_size(field_index);
                if block < 2 && end > max_fixed_size[block] {
                    max_fixed_size[block] = end;
                }
                FieldLocation::FixedData {
                    block: if block < 1 {
                        block
                    } else {
                        1
                    },
                    offset: data_block_offset as usize,
                }
            } else if field_index != 0 {
                FieldLocation::VarData { key: field_index }
            } else {
                FieldLocation::Unknown
            };
            items.insert(field_index, location);
            index = index + 28;
        }
        FieldMap { items, max_fixed_size }
    }

    /// Location of the field `field_index`.
    pub fn location(&self, field_index: u16) -> (r: FieldLocation)
        ensures
            r == spec_location(self.locations(), field_index),
    {
        match self.items.get(&field_index) {
            Some(l) => *l,
            None => FieldLocation::Unknown,
        }
    }

    /// `(block, offset)` when the field lives in the fixed data.
    pub fn fixed_offset(&self, field_index: u16) -> (r: Option<(usize, usize)>)
        ensures
            r == (match spec_location(self.locations(), field_index) {
                FieldLocation::FixedData { block, offset } => Some((block, offset)),
                _ => None,
            }),
    {
        match self.location(field_index) {
            FieldLocation::FixedData { block, offset } => Some((block, offset)),
            _ => None,
        }
    }

    /// Var data key when the field lives in the variable data.
    pub fn var_key(&self, field_index: u16) -> (r: Option<u16>)
        ensures
            r == (match spec_location(self.locations(), field_index) {
                FieldLocation::VarData { key } => Some(key),
                _ => None,
            }),
    {
        match self.location(field_index) {
            FieldLocation::VarData { key } => Some(key),
            _ => None,
        }
    }

    /// Lower bound of the item size of the fixed data block `block` (0 for
    /// blocks other than 0 and 1).
    pub fn max_fixed_data_size(&self, block: usize) -> (r: usize)
        ensures
            r == (if block == 0 {
                self.max_sizes().0
            } else if block == 1 {
                self.max_sizes().1
            } else {
                0
            }),
    {
        if block < 2 {
            self.max_fixed_size[block]
        } else {
            0
        }
    }

    /// `true` when no field was recorded.
    pub fn is_empty(&self) -> (r: bool)
        ensures
            r == (self.locations().len() == 0),
    {
        self.items.is_empty()
    }
}

} // verus!
