//! VarMeta: metadata of the variable-length data held in a Var2Data block.
//!
//! Layout: a 24-byte header (magic, unknown, item count, unknown, unknown,
//! data size) followed by 12-byte entries `uid: u32, offset: u32,
//! type: u16, unknown: u16`.

use std::collections::BTreeMap;

use vstd::prelude::*;
use vstd::std_specs::iter::IteratorSpec;

use crate::error::{is_corrupt, MppError};
use crate::text::{hex_u32, push_hex_u32};
use crate::util::{get_u16, get_u32, le_u16, le_u32, sort_u32, sorted_u32, spec_get_u32};

verus! {

/// Magic number that opens VarMeta and FixedMeta blocks.
pub const BLOCK_MAGIC: u32 = 0xFADF_ADBA;

const HEADER_SIZE: usize = 24;

const ENTRY_SIZE: usize = 12;

/// Table `uid -> { field type -> offset in Var2Data }`, plus the sorted
/// list of offsets that Var2Data walks through.
#[derive(Debug)]
pub struct VarMeta {
    table: BTreeMap<u32, BTreeMap<u16, u32>>,
    offsets: Vec<u32>,
    entries: usize,
}

/// The `(uid, type)` pairs present in a table.
pub open spec fn table_pairs(t: Map<u32, Map<u16, u32>>) -> Set<(u32, u16)> {
    Set::new(|p: (u32, u16)| t.contains_key(p.0) && t[p.0].contains_key(p.1))
}

/// `t` with the entry `(uid, typ) -> offset` added (or replaced).
pub open spec fn table_insert(t: Map<u32, Map<u16, u32>>, uid: u32, typ: u16, offset: u32) -> Map<
    u32,
    Map<u16, u32>,
> {
    let inner = if t.contains_key(uid) {
        t[uid]
    } else {
        Map::empty()
    };
    t.insert(uid, inner.insert(typ, offset))
}

/// Entries read from entry `i` on (at byte `pos`) of `count` declared ones:
/// the table and the offsets in the order read. Reading stops at the count
/// or at the first entry that does not fit in the data.
pub open spec fn var_meta_scan(
    data: Seq<u8>,
    count: int,
    i: int,
    pos: int,
    table: Map<u32, Map<u16, u32>>,
    offsets: Seq<u32>,
) -> (Map<u32, Map<u16, u32>>, Seq<u32>)
    decreases count - i,
{
    if i >= count || pos + 12 > data.len() {
        (table, offsets)
    } else {
        let uid = le_u32(data, pos);
        let offset = le_u32(data, pos + 4);
        let typ = le_u16(data, pos + 8);
        var_meta_scan(
            data,
            count,
            i + 1,
            pos + 12,
            table_insert(table, uid, typ, offset),
            offsets.push(offset),
        )
    }
}

/// Declared entry count: the `u32` at offset 8, or 0 when absent.
pub open spec fn var_meta_count(data: Seq<u8>) -> int {
    match spec_get_u32(data, 8) {
        Some(c) => c as int,
        None => 0,
    }
}

/// Table and offsets (in reading order) held in a VarMeta block.
pub open spec fn spec_var_meta(data: Seq<u8>) -> (Map<u32, Map<u16, u32>>, Seq<u32>) {
    var_meta_scan(data, var_meta_count(data), 0, 24, Map::empty(), Seq::empty())
}

/// Number of entries that a scan with declared count `c` reads: the count,
/// or fewer when the data ends first.
pub open spec fn entries_for(data: Seq<u8>, c: int) -> int {
    let avail = if data.len() >= 24 {
        (data.len() - 24) / 12
    } else {
        0
    };
    if c < avail {
        c
    } else {
        avail
    }
}

/// Number of entries read from a VarMeta block.
pub open spec fn var_meta_entries(data: Seq<u8>) -> int {
    entries_for(data, var_meta_count(data))
}

/// Uid of entry `k`.
pub open spec fn entry_uid(data: Seq<u8>, k: int) -> u32 {
    le_u32(data, 24 + 12 * k)
}

/// Offset of entry `k`.
pub open spec fn entry_offset(data: Seq<u8>, k: int) -> u32 {
    le_u32(data, 28 + 12 * k)
}

/// Field type of entry `k`.
pub open spec fn entry_type(data: Seq<u8>, k: int) -> u16 {
    le_u16(data, 32 + 12 * k)
}

/// `(uid, type)` of the entries `from..n`.
pub open spec fn entry_pairs(data: Seq<u8>, from: int, n: int) -> Seq<(u32, u16)> {
    Seq::new((n - from) as nat, |k: int| (entry_uid(data, from + k), entry_type(data, from + k)))
}

/// Uids of the entries `from..n`.
pub open spec fn entry_uids(data: Seq<u8>, from: int, n: int) -> Seq<u32> {
    Seq::new((n - from) as nat, |k: int| entry_uid(data, from + k))
}

/// The last of the first `n` entries for `(uid, typ)`.
pub open spec fn last_entry(data: Seq<u8>, uid: u32, typ: u16, n: int) -> Option<int>
    decreases n,
{
    if n <= 0 {
        None
    } else if entry_uid(data, n - 1) == uid && entry_type(data, n - 1) == typ {
        Some(n - 1)
    } else {
        last_entry(data, uid, typ, n - 1)
    }
}

/// Every offset that the table records is among `offsets`.
pub open spec fn table_in_offsets(t: Map<u32, Map<u16, u32>>, offsets: Seq<u32>) -> bool {
    forall|uid: u32, typ: u16|
        #[trigger] table_get(t, uid, typ) is Some ==> offsets.contains(table_get(t, uid, typ)->0)
}

/// Offset recorded in a table for `(uid, typ)`.
pub open spec fn table_get(t: Map<u32, Map<u16, u32>>, uid: u32, typ: u16) -> Option<u32> {
    if t.contains_key(uid) && t[uid].contains_key(typ) {
        Some(t[uid][typ])
    } else {
        None
    }
}

proof fn lemma_last_entry(data: Seq<u8>, uid: u32, typ: u16, n: int)
    ensures
        last_entry(data, uid, typ, n) matches Some(k) ==> 0 <= k < n && entry_uid(data, k) == uid
            && entry_type(data, k) == typ && forall|j: int|
            k < j < n ==> !(entry_uid(data, j) == uid && entry_type(data, j) == typ),
        last_entry(data, uid, typ, n) is None ==> forall|j: int|
            0 <= j < n ==> !(entry_uid(data, j) == uid && entry_type(data, j) == typ),
    decreases n,
{
    if n > 0 {
        lemma_last_entry(data, uid, typ, n - 1);
    }
}

proof fn lemma_scan(
    data: Seq<u8>,
    c: int,
    i: int,
    table: Map<u32, Map<u16, u32>>,
    offsets: Seq<u32>,
)
    requires
        c >= 0,
        0 <= i <= entries_for(data, c),
    ensures
        ({
            let (t, o) = var_meta_scan(data, c, i, 24 + 12 * i, table, offsets);
            let n = entries_for(data, c);
            &&& o == offsets + Seq::new((n - i) as nat, |k: int| entry_offset(data, i + k))
            &&& forall|uid: u32, typ: u16|
                #[trigger] table_get(t, uid, typ) == (match last_entry(data, uid, typ, n) {
                    Some(k) => if k >= i {
                        Some(entry_offset(data, k))
                    } else {
                        table_get(table, uid, typ)
                    },
                    None => table_get(table, uid, typ),
                })
            &&& table_pairs(t) == table_pairs(table) + entry_pairs(data, i, n).to_set()
            &&& t.dom() == table.dom() + entry_uids(data, i, n).to_set()
        }),
    decreases entries_for(data, c) - i,
{
    let n = entries_for(data, c);
    if i == n {
        assert(offsets + Seq::new(0, |k: int| entry_offset(data, i + k)) =~= offsets);
        assert(entry_pairs(data, i, n).to_set() =~= Set::empty());
        assert(entry_uids(data, i, n).to_set() =~= Set::empty());
        assert(table_pairs(table) + Set::empty() =~= table_pairs(table));
        assert(table.dom() + Set::empty() =~= table.dom());
        assert forall|uid: u32, typ: u16| #[trigger]
            table_get(table, uid, typ) == (match last_entry(data, uid, typ, n) {
                Some(k) => if k >= i {
                    Some(entry_offset(data, k))
                } else {
                    table_get(table, uid, typ)
                },
                None => table_get(table, uid, typ),
            }) by {
            lemma_last_entry(data, uid, typ, n);
        }
    } else {
        let uid_i = entry_uid(data, i);
        let typ_i = entry_type(data, i);
        let off_i = entry_offset(data, i);
        let t1 = table_insert(table, uid_i, typ_i, off_i);
        lemma_scan(data, c, i + 1, t1, offsets.push(off_i));
        assert(offsets.push(off_i) + Seq::new((n - i - 1) as nat, |k: int| entry_offset(data, i + 1 + k))
            =~= offsets + Seq::new((n - i) as nat, |k: int| entry_offset(data, i + k)));
        let (t, o) = var_meta_scan(data, c, i + 1, 24 + 12 * (i + 1), t1, offsets.push(off_i));
        assert forall|uid: u32, typ: u16| #[trigger]
            table_get(t, uid, typ) == (match last_entry(data, uid, typ, n) {
                Some(k) => if k >= i {
                    Some(entry_offset(data, k))
                } else {
                    table_get(table, uid, typ)
                },
                None => table_get(table, uid, typ),
            }) by {
            lemma_last_entry(data, uid, typ, n);
        }
        assert(table_pairs(t1) =~= table_pairs(table).insert((uid_i, typ_i)));
        assert(entry_pairs(data, i, n).to_set() =~= entry_pairs(data, i + 1, n).to_set().insert(
            (uid_i, typ_i),
        )) by {
            assert(entry_pairs(data, i, n)[0] == (uid_i, typ_i));
            assert forall|p: (u32, u16)| entry_pairs(data, i, n).contains(p) implies entry_pairs(
                data,
                i + 1,
                n,
            ).to_set().insert((uid_i, typ_i)).contains(p) by {
                let k = choose|k: int| 0 <= k < entry_pairs(data, i, n).len() && #[trigger] entry_pairs(data, i, n)[k] == p;
                if k > 0 {
                    assert(entry_pairs(data, i + 1, n)[k - 1] == p);
                }
            }
            assert forall|p: (u32, u16)| entry_pairs(data, i + 1, n).contains(p) implies entry_pairs(
                data,
                i,
                n,
            ).contains(p) by {
                let k = choose|k: int| 0 <= k < entry_pairs(data, i + 1, n).len() && #[trigger] entry_pairs(data, i + 1, n)[k] == p;
                assert(entry_pairs(data, i, n)[k + 1] == p);
            }
        }
        assert(table_pairs(t) =~= table_pairs(table) + entry_pairs(data, i, n).to_set());
        assert(entry_uids(data, i, n).to_set() =~= entry_uids(data, i + 1, n).to_set().insert(uid_i))
            by {
            assert(entry_uids(data, i, n)[0] == uid_i);
            assert forall|u: u32| entry_uids(data, i, n).contains(u) implies entry_uids(
                data,
                i + 1,
                n,
            ).to_set().insert(uid_i).contains(u) by {
                let k = choose|k: int| 0 <= k < entry_uids(data, i, n).len() && #[trigger] entry_uids(data, i, n)[k] == u;
                if k > 0 {
                    assert(entry_uids(data, i + 1, n)[k - 1] == u);
                }
            }
            assert forall|u: u32| entry_uids(data, i + 1, n).contains(u) implies entry_uids(
                data,
                i,
                n,
            ).contains(u) by {
                let k = choose|k: int| 0 <= k < entry_uids(data, i + 1, n).len() && #[trigger] entry_uids(data, i + 1, n)[k] == u;
                assert(entry_uids(data, i, n)[k + 1] == u);
            }
        }
        assert(t1.dom() =~= table.dom().insert(uid_i));
        assert(t.dom() =~= table.dom() + entry_uids(data, i, n).to_set());
    }
}

/// What a VarMeta block holds, entry by entry: its offsets in reading
/// order are those of its first `var_meta_entries` entries (the declared
/// count, or fewer when the data ends first); the offset recorded for
/// `(uid, type)` is that of the last entry for it, none when there is no
/// such entry; the uids are those of the entries; there are at most as
/// many uids as distinct `(uid, type)` pairs, and at most as many pairs as
/// entries.
pub proof fn var_meta_holds_its_entries(data: Seq<u8>)
    ensures
        ({
            let (t, o) = spec_var_meta(data);
            let n = var_meta_entries(data);
            &&& o == Seq::new(n as nat, |k: int| entry_offset(data, k))
            &&& forall|uid: u32, typ: u16|
                #[trigger] table_get(t, uid, typ) == (match last_entry(data, uid, typ, n) {
                    Some(k) => Some(entry_offset(data, k)),
                    None => None,
                })
            &&& table_pairs(t) == entry_pairs(data, 0, n).to_set()
            &&& t.dom() == entry_uids(data, 0, n).to_set()
            &&& t.dom().len() <= table_pairs(t).len() <= n
        }),
{
    let n = var_meta_entries(data);
    lemma_scan(data, var_meta_count(data), 0, Map::empty(), Seq::empty());
    let (t, o) = spec_var_meta(data);
    assert(o =~= Seq::new(n as nat, |k: int| entry_offset(data, k)));
    assert(table_pairs(Map::<u32, Map<u16, u32>>::empty()) =~= Set::empty());
    assert(table_pairs(t) =~= entry_pairs(data, 0, n).to_set());
    assert(t.dom() =~= entry_uids(data, 0, n).to_set());
    assert forall|uid: u32, typ: u16| #[trigger]
        table_get(t, uid, typ) == (match last_entry(data, uid, typ, n) {
            Some(k) => Some(entry_offset(data, k)),
            None => None,
        }) by {
        lemma_last_entry(data, uid, typ, n);
    }
    let pairs = entry_pairs(data, 0, n);
    vstd::seq_lib::seq_to_set_is_finite(pairs);
    pairs.lemma_cardinality_of_set();
    assert(table_pairs(t).map(|p: (u32, u16)| p.0) =~= t.dom()) by {
        assert forall|u: u32| t.dom().contains(u) implies table_pairs(t).map(
            |p: (u32, u16)| p.0,
        ).contains(u) by {
            let k = choose|k: int| 0 <= k < entry_uids(data, 0, n).len() && #[trigger] entry_uids(data, 0, n)[k] == u;
            assert(pairs[k].0 == u);
            assert(table_pairs(t).contains(pairs[k]));
        }
    }
    vstd::set_lib::lemma_map_size_bound(table_pairs(t), t.dom(), |p: (u32, u16)| p.0);
}

/// A VarMeta magic number is valid when it is the block magic or zero
/// (zero occurs in files that MS Project reads without complaint).
pub open spec fn var_meta_magic_ok(magic: u32) -> bool {
    magic == BLOCK_MAGIC || magic == 0
}

/// The block starts with a valid magic number.
pub open spec fn var_meta_valid(data: Seq<u8>) -> bool {
    data.len() >= 4 && var_meta_magic_ok(le_u32(data, 0))
}

/// `e` is the error of parsing an invalid VarMeta `data` in `context`.
pub open spec fn var_meta_failure(data: Seq<u8>, context: Seq<char>, e: MppError) -> bool {
    ||| data.len() < 4 && is_corrupt(e, context, "VarMeta más corto que el header"@)
    ||| data.len() >= 4 && !var_meta_magic_ok(le_u32(data, 0)) && is_corrupt(
        e,
        context,
        "magic VarMeta inválido: "@ + hex_u32(le_u32(data, 0)),
    )
}

/// Two sequences with the same multiset of elements hold the same set.
proof fn lemma_same_elements(a: Seq<u32>, b: Seq<u32>)
    requires
        a.to_multiset() == b.to_multiset(),
    ensures
        a.to_set() == b.to_set(),
{
    a.to_multiset_ensures();
    b.to_multiset_ensures();
    assert forall|x: u32| a.to_set().contains(x) == b.to_set().contains(x) by {
        assert(a.contains(x) == (a.to_multiset().count(x) > 0));
        assert(b.contains(x) == (b.to_multiset().count(x) > 0));
    }
    assert(a.to_set() =~= b.to_set());
}

impl VarMeta {
    /// Table `uid -> { type -> offset }`.
    pub closed spec fn table(&self) -> Map<u32, Map<u16, u32>> {
        self.table@.map_values(|m: BTreeMap<u16, u32>| m@)
    }

    /// All offsets, in ascending order (with repetitions).
    pub closed spec fn offsets(&self) -> Seq<u32> {
        self.offsets@
    }

    #[verifier::type_invariant]
    closed spec fn wf(&self) -> bool {
        &&& table_pairs(self.table()).finite()
        &&& self.entries == table_pairs(self.table()).len()
        &&& sorted_u32(self.offsets@)
        &&& table_in_offsets(self.table(), self.offsets@)
    }

    /// Parses a VarMeta block; `context` names it in errors.
    pub fn parse(data: &[u8], context: &str) -> (r: Result<VarMeta, MppError>)
        ensures
            match r {
                Ok(vm) => {
                    &&& data@.len() >= 4
                    &&& var_meta_magic_ok(le_u32(data@, 0))
                    &&& vm.table() == spec_var_meta(data@).0
                    &&& vm.offsets().to_multiset() == spec_var_meta(data@).1.to_multiset()
                    &&& vm.offsets().to_set() == spec_var_meta(data@).1.to_set()
                    &&& sorted_u32(vm.offsets())
                    &&& table_in_offsets(vm.table(), vm.offsets())
                },
                Err(e) => var_meta_failure(data@, context@, e),
            },
    {
        let magic = match get_u32(data, 0) {
            Some(m) => m,
            None => {
                return Err(
                    MppError::corrupt(context, "VarMeta más corto que el header".to_owned()),
                );
            },
        };
        if magic != BLOCK_MAGIC && magic != 0 {
            let mut detail = "magic VarMeta inválido: ".to_owned();
            push_hex_u32(&mut detail, magic);
            return Err(MppError::corrupt(context, detail));
        }
        let item_count: usize = match get_u32(data, 8) {
            Some(c) => c as usize,
            None => 0,
        };
        let mut table: BTreeMap<u32, BTreeMap<u16, u32>> = BTreeMap::new();
        let mut offsets: Vec<u32> = Vec::new();
        let mut entries: usize = 0;
        let data_len = data.len();
        let mut pos: usize = HEADER_SIZE;
        let mut i: usize = 0;
        let ghost start_table = table@.map_values(|m: BTreeMap<u16, u32>| m@);
        assert(start_table =~= Map::<u32, Map<u16, u32>>::empty());
        assert(table_pairs(start_table) =~= Set::<(u32, u16)>::empty());
        while i < item_count
            invariant
                data_len == data@.len(),
                item_count == var_meta_count(data@),
                pos == 24 + 12 * i,
                i <= item_count,
                offsets@.len() == i,
                table_pairs(table@.map_values(|m: BTreeMap<u16, u32>| m@)).finite(),
                entries == table_pairs(table@.map_values(|m: BTreeMap<u16, u32>| m@)).len(),
                entries <= i,
                var_meta_scan(
                    data@,
                    item_count as int,
                    i as int,
                    pos as int,
                    table@.map_values(|m: BTreeMap<u16, u32>| m@),
                    offsets@,
                ) == spec_var_meta(data@),
            ensures
                (table@.map_values(|m: BTreeMap<u16, u32>| m@), offsets@) == spec_var_meta(data@),
                table_pairs(table@.map_values(|m: BTreeMap<u16, u32>| m@)).finite(),
                entries == table_pairs(table@.map_values(|m: BTreeMap<u16, u32>| m@)).len(),
            decreases item_count - i,
        {
            if data_len < ENTRY_SIZE || pos > data_len - ENTRY_SIZE {
                break;
            }
            let uid = get_u32(data, pos).unwrap();
            let offset = get_u32(data, pos + 4).unwrap();
            let typ = get_u16(data, pos + 8).unwrap();
            let ghost old_table = table@.map_values(|m: BTreeMap<u16, u32>| m@);
            let mut inner = match table.remove(&uid) {
                Some(m) => m,
                None => BTreeMap::new(),
            };
            let fresh = !inner.contains_key(&typ);
            inner.insert(typ, offset);
            table.insert(uid, inner);
            proof {
                let new_table = table@.map_values(|m: BTreeMap<u16, u32>| m@);
                assert(new_table =~= table_insert(old_table, uid, typ, offset));
                if fresh {
                    assert(table_pairs(new_table) =~= table_pairs(old_table).insert((uid, typ)));
                } else {
                    assert(table_pairs(new_table) =~= table_pairs(old_table));
                }
            }
            if fresh {
                entries = entries + 1;
            }
            offsets.push(offset);
            pos = pos + ENTRY_SIZE;
            i = i + 1;
        }
        let ghost scanned = offsets@;
        sort_u32(&mut offsets);
        proof {
            lemma_same_elements(offsets@, scanned);
            var_meta_holds_its_entries(data@);
            let t = table@.map_values(|m: BTreeMap<u16, u32>| m@);
            let n = var_meta_entries(data@);
            assert forall|uid: u32, typ: u16| #[trigger]
                table_get(t, uid, typ) is Some implies offsets@.contains(
                table_get(t, uid, typ)->0,
            ) by {
                let o = table_get(t, uid, typ)->0;
                let k = last_entry(data@, uid, typ, n)->0;
                lemma_last_entry(data@, uid, typ, n);
                assert(scanned[k] == o);
                assert(scanned.to_set().contains(o));
                assert(offsets@.to_set().contains(o));
            }
        }
        Ok(VarMeta { table, offsets, entries })
    }

    /// UIDs present, in ascending order.
    pub fn unique_ids(&self) -> (r: Vec<u32>)
        ensures
            r@.to_set() == self.table().dom(),
            forall|i: int, j: int| 0 <= i < j < r@.len() ==> r@[i] < r@[j],
    {
        let mut out: Vec<u32> = Vec::new();
        let ghost all = vstd::std_specs::btree::spec_keys_iter(&self.table).remaining();
        proof {
            vstd::std_specs::btree::axiom_spec_keys_iter(&self.table);
        }
        for k in it: self.table.keys()
            invariant
                it.seq() == all,
                out@ == it.seq().take(it.index() as int).map_values(|r: &u32| *r),
        {
            out.push(*k);
        }
        proof {
            assert(out@ =~= all.map_values(|r: &u32| *r));
            assert(all.unref() =~= all.map_values(|r: &u32| *r));
            assert(self.table().dom() =~= self.table@.dom());
            crate::order::lemma_increasing_u32(all);
        }
        out
    }

    /// Number of distinct UIDs.
    pub fn uid_count(&self) -> (r: usize)
        ensures
            r == self.table().dom().len(),
    {
        assert(self.table().dom() =~= self.table@.dom());
        self.table.len()
    }

    /// Number of `(uid, type)` entries.
    pub fn entry_count(&self) -> (r: usize)
        ensures
            r == table_pairs(self.table()).len(),
    {
        proof {
            use_type_invariant(self);
        }
        self.entries
    }

    /// Offset in Var2Data of the field `typ` of the item `uid`.
    pub fn offset(&self, uid: u32, typ: u16) -> (r: Option<u32>)
        ensures
            r == (if self.table().contains_key(uid) && self.table()[uid].contains_key(typ) {
                Some(self.table()[uid][typ])
            } else {
                None
            }),
    {
        match self.table.get(&uid) {
            Some(inner) => match inner.get(&typ) {
                Some(o) => Some(*o),
                None => None,
            },
            None => None,
        }
    }

    /// Field types present for `uid`, in ascending order.
    pub fn types_for(&self, uid: u32) -> (r: Vec<u16>)
        ensures
            self.table().contains_key(uid) ==> r@.to_set() == self.table()[uid].dom(),
            !self.table().contains_key(uid) ==> r@.len() == 0,
            forall|i: int, j: int| 0 <= i < j < r@.len() ==> r@[i] < r@[j],
    {
        let mut out: Vec<u16> = Vec::new();
        match self.table.get(&uid) {
            None => {
                return out;
            },
            Some(inner) => {
                let ghost all = vstd::std_specs::btree::spec_keys_iter(inner).remaining();
                proof {
                    vstd::std_specs::btree::axiom_spec_keys_iter(inner);
                }
                for k in it: inner.keys()
                    invariant
                        it.seq() == all,
                        out@ == it.seq().take(it.index() as int).map_values(|r: &u16| *r),
                {
                    out.push(*k);
                }
                proof {
                    assert(out@ =~= all.map_values(|r: &u16| *r));
                    assert(all.unref() =~= all.map_values(|r: &u16| *r));
                    crate::order::lemma_increasing_u16(all);
                }
                out
            },
        }
    }

    /// `true` when some field is recorded for `uid`.
    pub fn has_uid(&self, uid: u32) -> (r: bool)
        ensures
            r == self.table().contains_key(uid),
    {
        self.table.contains_key(&uid)
    }

    /// All offsets, in ascending order (Var2Data walks its stream in this
    /// order).
    pub fn sorted_offsets(&self) -> (r: &[u32])
        ensures
            r@ == self.offsets(),
            sorted_u32(r@),
            table_in_offsets(self.table(), r@),
    {
        proof {
            use_type_invariant(self);
        }
        self.offsets.as_slice()
    }
}

} // verus!
