//! Dependencies between tasks, from the `TBkndCons` storage.
//!
//! FixedMeta items of 10 bytes; FixedData items forced to 20 bytes at the
//! offsets of the metadata. The lag moves with the version that wrote the
//! file: after Project 2010 the lag is at offset 14 and its unit at 18; in
//! Project 2010 the lag is at 16 and its unit at 14.

use std::collections::BTreeMap;

use vstd::prelude::*;
use vstd::std_specs::iter::IteratorSpec;

use crate::blocks::fixed_data::{sized_item, FixedData};
use crate::blocks::fixed_meta::{fixed_meta_outcome, FixedMeta};
use crate::container::{project_path, stream_failure, xor_bytes, MppContainer};
use crate::dec::{duration_units, spec_duration_units};
use crate::error::{is_corrupt, MppError};
use crate::model::{Duration, Relation, RelationType, Task};
use crate::reader::tasks::{item_at, opt_at};
use crate::util::{get_i32, get_u16, spec_get_i32, spec_get_u16};

verus! {

broadcast use vstd::std_specs::btree::group_btree_axioms;

pub open spec fn i32_or(o: Option<i32>, d: i32) -> i32 {
    match o {
        Some(v) => v,
        None => d,
    }
}

pub open spec fn u16_or(o: Option<u16>, d: u16) -> u16 {
    match o {
        Some(v) => v,
        None => d,
    }
}

/// Relation type of a stored code: 0 FF, 2 SF, 3 SS, anything else FS.
pub open spec fn spec_relation_kind(raw: u16) -> RelationType {
    if raw == 0 {
        RelationType::FinishFinish
    } else if raw == 2 {
        RelationType::StartFinish
    } else if raw == 3 {
        RelationType::StartStart
    } else {
        RelationType::FinishStart
    }
}

/// Offsets of the lag and of its unit within a relation item.
pub open spec fn lag_offsets(version: u32) -> (int, int) {
    if version > 14 {
        (14, 18)
    } else {
        (16, 14)
    }
}

/// The relation stored at item `index`, with the uid of its successor.
/// Items whose first `u16` (the deletion flag) is not 0, items shorter than
/// 14 bytes, and relations with a non-positive or identical predecessor and
/// successor are skipped. A lag of -1 or an absent one is no lag.
pub open spec fn relation_at(meta: Seq<Seq<u8>>, data: Seq<Option<Seq<u8>>>, version: u32, index: int) -> Option<
    (u32, Relation),
> {
    let deleted = match item_at(meta, index) {
        Some(m) => u16_or(spec_get_u16(m, 0), 1),
        None => 1,
    };
    if deleted != 0 {
        None
    } else {
        match opt_at(data, index) {
            None => None,
            Some(item) => if item.len() < 14 {
                None
            } else {
                let pred = i32_or(spec_get_i32(item, 4), 0);
                let succ = i32_or(spec_get_i32(item, 8), 0);
                if pred <= 0 || succ <= 0 || pred == succ {
                    None
                } else {
                    let (lag_off, units_off) = lag_offsets(version);
                    let lag = match spec_get_i32(item, lag_off) {
                        Some(t) => if t == -1 {
                            None
                        } else {
                            Some(
                                Duration {
                                    tenths_of_minute: t,
                                    units: spec_duration_units(
                                        u16_or(spec_get_u16(item, units_off), 7),
                                    ),
                                },
                            )
                        },
                        None => None,
                    };
                    Some(
                        (
                            succ as u32,
                            Relation {
                                predecessor_uid: pred as u32,
                                kind: spec_relation_kind(u16_or(spec_get_u16(item, 12), 1)),
                                lag,
                            },
                        ),
                    )
                }
            },
        }
    }
}

/// Relations into `succ` among the first `n` items, in item order.
pub open spec fn relations_to(
    meta: Seq<Seq<u8>>,
    data: Seq<Option<Seq<u8>>>,
    version: u32,
    succ: u32,
    n: int,
) -> Seq<Relation>
    decreases n,
{
    if n <= 0 {
        Seq::empty()
    } else {
        let rest = relations_to(meta, data, version, succ, n - 1);
        match relation_at(meta, data, version, n - 1) {
            Some((s, r)) => if s == succ {
                rest.push(r)
            } else {
                rest
            },
            None => rest,
        }
    }
}

/// Number of relations among the first `n` items.
pub open spec fn relation_count(meta: Seq<Seq<u8>>, data: Seq<Option<Seq<u8>>>, version: u32, n: int) -> nat
    decreases n,
{
    if n <= 0 {
        0
    } else {
        relation_count(meta, data, version, n - 1) + (if relation_at(
            meta,
            data,
            version,
            n - 1,
        ) is Some {
            1nat
        } else {
            0nat
        })
    }
}

/// Relations grouped by successor after the first `n` items.
pub open spec fn relations_by_successor(
    meta: Seq<Seq<u8>>,
    data: Seq<Option<Seq<u8>>>,
    version: u32,
    n: int,
) -> Map<u32, Seq<Relation>> {
    Map::new(
        |s: u32| relations_to(meta, data, version, s, n).len() > 0,
        |s: u32| relations_to(meta, data, version, s, n),
    )
}

/// Relation items of a container: metadata items of 10 bytes and the
/// de-obfuscated data items of 20 bytes at their offsets.
pub open spec fn relation_items(c: MppContainer) -> (Seq<Seq<u8>>, Seq<Option<Seq<u8>>>) {
    let meta = fixed_meta_outcome(c.stream_bytes("TBkndCons/FixedMeta"@).unwrap(), 10)->Ok_0;
    let data = xor_bytes(c.stream_bytes("TBkndCons/FixedData"@).unwrap(), c.mask());
    (meta, Seq::new(meta.len(), |i: int| sized_item(meta, data, 20, i)))
}

/// The relation storage is absent, or readable and valid.
pub open spec fn relations_readable(c: MppContainer) -> bool {
    !c.streams().contains_key(project_path("TBkndCons/FixedMeta"@)) || {
        &&& c.stream_bytes("TBkndCons/FixedMeta"@) is Some
        &&& fixed_meta_outcome(c.stream_bytes("TBkndCons/FixedMeta"@).unwrap(), 10) is Ok
        &&& c.stream_bytes("TBkndCons/FixedData"@) is Some
    }
}

/// `e` is the error of reading the relation storage of `c`: the FixedMeta
/// stream cannot be read or is not valid, or the FixedData stream cannot be
/// read.
pub open spec fn relations_failure(c: MppContainer, e: MppError) -> bool {
    let meta = c.stream_bytes("TBkndCons/FixedMeta"@);
    if meta is None {
        stream_failure(c, "TBkndCons/FixedMeta"@, e)
    } else if fixed_meta_outcome(meta->0, 10) is Err {
        is_corrupt(e, "TBkndCons"@, fixed_meta_outcome(meta->0, 10)->Err_0)
    } else {
        stream_failure(c, "TBkndCons/FixedData"@, e)
    }
}

/// The relation kinds of the format: code 0 finish-to-finish, 1
/// finish-to-start, 2 start-to-finish, 3 start-to-start; any other code
/// is read as finish-to-start.
pub proof fn relation_codes_in_format_order(raw: u16)
    ensures
        spec_relation_kind(0) == RelationType::FinishFinish,
        spec_relation_kind(1) == RelationType::FinishStart,
        spec_relation_kind(2) == RelationType::StartFinish,
        spec_relation_kind(3) == RelationType::StartStart,
        raw > 3 ==> spec_relation_kind(raw) == RelationType::FinishStart,
{
}

/// What a relation item holds: the predecessor uid in the `i32` at byte 4,
/// the successor uid in the `i32` at byte 8, the kind in the `u16` at byte
/// 12 (0 FF, 1 FS, 2 SF, 3 SS, others FS), and the lag in tenths of a
/// minute at byte 14 with its unit at byte 18 for files of Project 2013
/// and later, at byte 16 with its unit at byte 14 for Project 2010.
pub proof fn relation_item_layout(
    meta: Seq<Seq<u8>>,
    data: Seq<Option<Seq<u8>>>,
    version: u32,
    index: int,
)
    ensures
        relation_at(meta, data, version, index) matches Some((succ, r)) ==> {
            let item = data[index];
            let lag_at: int = if version > 14 {
                14
            } else {
                16
            };
            let unit_at: int = if version > 14 {
                18
            } else {
                14
            };
            &&& 0 <= index < data.len() && item is Some && item->0.len() >= 14
            &&& spec_get_i32(item->0, 4) matches Some(p) && p > 0 && r.predecessor_uid == p as u32
            &&& spec_get_i32(item->0, 8) matches Some(q) && q > 0 && succ == q as u32
            &&& succ != r.predecessor_uid
            &&& r.kind == (match spec_get_u16(item->0, 12) {
                Some(0) => RelationType::FinishFinish,
                Some(2) => RelationType::StartFinish,
                Some(3) => RelationType::StartStart,
                _ => RelationType::FinishStart,
            })
            &&& r.lag == (match spec_get_i32(item->0, lag_at) {
                Some(t) => if t == -1 {
                    None
                } else {
                    Some(
                        Duration {
                            tenths_of_minute: t,
                            units: spec_duration_units(
                                if spec_get_u16(item->0, unit_at) is Some {
                                    spec_get_u16(item->0, unit_at)->0
                                } else {
                                    7
                                },
                            ),
                        },
                    )
                },
                None => None,
            })
        },
{
}

/// `after` is `before` with the relations of `by_succ` attached: the first
/// task with a given uid receives the relations into that uid (when there
/// are any); everything else is unchanged.
pub open spec fn relations_attached(
    before: Seq<Task>,
    after: Seq<Task>,
    by_succ: Map<u32, Seq<Relation>>,
) -> bool {
    &&& after.len() == before.len()
    &&& forall|k: int|
        0 <= k < before.len() ==> {
            let t = before[k];
            let first = forall|j: int| 0 <= j < k ==> before[j].uid != t.uid;
            &&& #[trigger] after[k] == Task { predecessors: after[k].predecessors, ..t }
            &&& after[k].predecessors@ == (if first && by_succ.contains_key(t.uid) {
                by_succ[t.uid]
            } else {
                t.predecessors@
            })
        }
}

fn relation_of(meta: &FixedMeta, data: &FixedData, version: u32, index: usize) -> (r: Option<
    (u32, Relation),
>)
    ensures
        r == relation_at(meta@, data@, version, index as int),
{
    let deleted = match meta.item(index) {
        Some(m) => match get_u16(m, 0) {
            Some(v) => v,
            None => 1,
        },
        None => 1,
    };
    if deleted != 0 {
        return None;
    }
    let item = match data.item(index) {
        Some(i) => i,
        None => return None,
    };
    if item.len() < 14 {
        return None;
    }
    let pred = match get_i32(item, 4) {
        Some(v) => v,
        None => 0,
    };
    let succ = match get_i32(item, 8) {
        Some(v) => v,
        None => 0,
    };
    if pred <= 0 || succ <= 0 || pred == succ {
        return None;
    }
    let raw_kind = match get_u16(item, 12) {
        Some(v) => v,
        None => 1,
    };
    let kind = if raw_kind == 0 {
        RelationType::FinishFinish
    } else if raw_kind == 2 {
        RelationType::StartFinish
    } else if raw_kind == 3 {
        RelationType::StartStart
    } else {
        RelationType::FinishStart
    };
    let (lag_off, units_off): (usize, usize) = if version > 14 {
        (14, 18)
    } else {
        (16, 14)
    };
    let lag = match get_i32(item, lag_off) {
        Some(t) => if t == -1 {
            None
        } else {
            let raw_units = match get_u16(item, units_off) {
                Some(u) => u,
                None => 7,
            };
            Some(Duration { tenths_of_minute: t, units: duration_units(raw_units) })
        },
        None => None,
    };
    Some((succ as u32, Relation { predecessor_uid: pred as u32, kind, lag }))
}

/// Groups the relations of the items by successor.
fn group_relations(meta: &FixedMeta, data: &FixedData, version: u32) -> (r: (
    BTreeMap<u32, Vec<Relation>>,
    usize,
))
    requires
        data@.len() == meta@.len(),
    ensures
        r.0@.map_values(|v: Vec<Relation>| v@) == relations_by_successor(
            meta@,
            data@,
            version,
            meta@.len() as int,
        ),
        r.1 == relation_count(meta@, data@, version, meta@.len() as int),
{
    let mut by_successor: BTreeMap<u32, Vec<Relation>> = BTreeMap::new();
    let mut count: usize = 0;
    let n = meta.item_count();
    let mut index: usize = 0;
    assert(by_successor@.map_values(|v: Vec<Relation>| v@) =~= relations_by_successor(
        meta@,
        data@,
        version,
        0,
    ));
    while index < n
        invariant
            n == meta@.len(),
            index <= n,
            count <= index,
            count == relation_count(meta@, data@, version, index as int),
            by_successor@.map_values(|v: Vec<Relation>| v@) == relations_by_successor(
                meta@,
                data@,
                version,
                index as int,
            ),
        decreases n - index,
    {
        let ghost before = by_successor@.map_values(|v: Vec<Relation>| v@);
        match relation_of(meta, data, version, index) {
            Some((succ, rel)) => {
                let mut list = match by_successor.remove(&succ) {
                    Some(l) => l,
                    None => Vec::new(),
                };
                assert(list@ =~= relations_to(meta@, data@, version, succ, index as int)) by {
                    let rs = relations_to(meta@, data@, version, succ, index as int);
                    if rs.len() > 0 {
                        assert(before.contains_key(succ));
                        assert(before[succ] == rs);
                    } else {
                        assert(!before.contains_key(succ));
                    }
                }
                let ghost removed = by_successor@.map_values(|v: Vec<Relation>| v@);
                assert(removed =~= before.remove(succ));
                list.push(rel);
                by_successor.insert(succ, list);
                count = count + 1;
                proof {
                    let after = by_successor@.map_values(|v: Vec<Relation>| v@);
                    let target = relations_by_successor(meta@, data@, version, index + 1);
                    assert forall|s: u32| #[trigger]
                        relations_to(meta@, data@, version, s, index + 1) == (if s == succ {
                            relations_to(meta@, data@, version, s, index as int).push(rel)
                        } else {
                            relations_to(meta@, data@, version, s, index as int)
                        }) by {}
                    assert(after =~= removed.insert(succ, relations_to(meta@, data@, version, succ, index as int).push(rel)));
                    assert forall|s: u32| after.contains_key(s) <==> target.contains_key(s) by {
                        if s != succ {
                            assert(after.contains_key(s) == before.contains_key(s));
                        }
                    }
                    assert forall|s: u32| after.contains_key(s) implies after[s] == target[s] by {
                        if s != succ {
                            assert(after[s] == before[s]);
                        }
                    }
                    assert(after =~= target);
                }
            },
            None => {
                assert(by_successor@.map_values(|v: Vec<Relation>| v@) =~= relations_by_successor(
                    meta@,
                    data@,
                    version,
                    index + 1,
                )) by {
                    assert forall|s: u32| #[trigger]
                        relations_to(meta@, data@, version, s, index + 1) == relations_to(
                            meta@,
                            data@,
                            version,
                            s,
                            index as int,
                        ) by {}
                }
            },
        }
        index = index + 1;
    }
    (by_successor, count)
}

/// Gives each task the relations into its uid (the first task with a
/// given uid takes them).
fn attach(tasks: &mut Vec<Task>, by_successor: BTreeMap<u32, Vec<Relation>>)
    ensures
        relations_attached(
            old(tasks)@,
            final(tasks)@,
            by_successor@.map_values(|v: Vec<Relation>| v@),
        ),
{
    let ghost orig = by_successor@.map_values(|v: Vec<Relation>| v@);
    let mut by_successor = by_successor;
    let mut before: Vec<Task> = Vec::new();
    std::mem::swap(&mut before, tasks);
    let ghost old_tasks = before@;
    let mut out: Vec<Task> = Vec::new();
    let n = before.len();
    for t in it: before.into_iter()
        invariant
            it.seq() == old_tasks,
            n == old_tasks.len(),
            out@.len() == it.index(),
            forall|s: u32|
                #![trigger by_successor@.contains_key(s)]
                by_successor@.contains_key(s) <==> orig.contains_key(s) && forall|j: int|
                    0 <= j < it.index() ==> old_tasks[j].uid != s,
            forall|s: u32|
                by_successor@.contains_key(s) ==> (#[trigger] by_successor@[s])@ == orig[s],
            forall|k: int|
                0 <= k < it.index() ==> {
                    let t = old_tasks[k];
                    let first = forall|j: int| 0 <= j < k ==> old_tasks[j].uid != t.uid;
                    &&& #[trigger] out@[k] == Task { predecessors: out@[k].predecessors, ..t }
                    &&& out@[k].predecessors@ == (if first && orig.contains_key(t.uid) {
                        orig[t.uid]
                    } else {
                        t.predecessors@
                    })
                },
    {
        let ghost k = it.index();
        let ghost first = forall|j: int| 0 <= j < k ==> old_tasks[j].uid != t.uid;
        let mut task = t;
        match by_successor.remove(&task.uid) {
            Some(rels) => {
                task.predecessors = rels;
            },
            None => {},
        }
        out.push(task);
    }
    *tasks = out;
}

/// Reads the relations and attaches them to the tasks whose uid is their
/// successor; returns how many relations were read.
pub fn attach_relations(c: &mut MppContainer, tasks: &mut Vec<Task>) -> (r: Result<usize, MppError>)
    ensures
        final(c).streams() == old(c).streams(),
        final(c).storages() == old(c).storages(),
        final(c).mask() == old(c).mask(),
        final(c).version() == old(c).version(),
        r is Ok <==> relations_readable(*old(c)),
        r matches Ok(n) ==> if !old(c).streams().contains_key(project_path("TBkndCons/FixedMeta"@)) {
            final(tasks)@ == old(tasks)@ && n == 0
        } else {
            let (meta, data) = relation_items(*old(c));
            &&& n == relation_count(meta, data, old(c).version(), meta.len() as int)
            &&& relations_attached(
                old(tasks)@,
                final(tasks)@,
                relations_by_successor(meta, data, old(c).version(), meta.len() as int),
            )
        },
        r matches Err(e) ==> final(tasks)@ == old(tasks)@ && relations_failure(*old(c), e),
{
    let dir = "TBkndCons";
    if !c.has_stream("TBkndCons/FixedMeta") {
        return Ok(0);
    }
    let meta_bytes = c.stream("TBkndCons/FixedMeta")?;
    let meta = FixedMeta::parse(meta_bytes.as_slice(), 10, dir)?;
    let data_bytes = c.stream_decrypted("TBkndCons/FixedData")?;
    let data = FixedData::parse_with_item_size(&meta, data_bytes.as_slice(), 20);
    let ghost (smeta, sdata) = relation_items(*old(c));
    assert(data@ =~= sdata);
    let (by_successor, count) = group_relations(&meta, &data, c.application_version());
    attach(tasks, by_successor);
    Ok(count)
}

} // verus!
