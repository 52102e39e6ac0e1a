//! Resources (`TBkndRsc`) and assignments (`TBkndAssn`): the identity of
//! each resource (uid, name, email) and the task-resource assignments with
//! their units and work. The fixed data of both storages is obfuscated
//! like the other masked streams.

use std::collections::BTreeSet;

use vstd::prelude::*;

use crate::blocks::fixed_data::FixedData;
use crate::blocks::fixed_meta::{fixed_meta_outcome, FixedMeta};
use crate::blocks::var2_data::{spec_var2_data, var2_field, Var2Data};
use crate::blocks::var_meta::{spec_var_meta, var_meta_failure, var_meta_magic_ok, var_meta_valid, VarMeta};
use crate::container::{stream_failure, xor_bytes, MppContainer};
use crate::error::{is_corrupt, MppError};
use crate::field_map::{assignment, resource, spec_location, FieldLocation, FieldMap};
use crate::model::{opt_str, Assignment, Resource};
use crate::order::{filter_u32, lemma_filter_u32};
use crate::reader::tasks::has_var_data;
use crate::text::spec_unicode_string;
use crate::util::get_unicode_string;
use crate::util::{get_i32, get_u64, le_u32, spec_get_i32, spec_get_u64};

verus! {

/// Resource id that marks an assignment without resource.
pub const NULL_RESOURCE_ID: i32 = -65535;

/// Var data key of a field: the one the map gives, else `default`.
pub open spec fn var_key_or(locations: Map<u16, FieldLocation>, field: u16, default: u16) -> u16 {
    match spec_location(locations, field) {
        FieldLocation::VarData { key } => key,
        _ => default,
    }
}

/// A non-empty string stored in the variable data of `uid` under `key`.
pub open spec fn var_text(
    items: Map<u32, Seq<u8>>,
    table: Map<u32, Map<u16, u32>>,
    uid: u32,
    key: u16,
) -> Option<Seq<char>> {
    match var2_field(items, table, uid, key) {
        Some(b) => match spec_unicode_string(b, 0) {
            Some(s) => if s.len() > 0 {
                Some(s)
            } else {
                None
            },
            None => None,
        },
        None => None,
    }
}

/// `r` lists, in ascending uid order, the uids of the variable data that
/// carry a name or an email, with both.
pub open spec fn resources_read(
    r: Seq<Resource>,
    items: Map<u32, Seq<u8>>,
    table: Map<u32, Map<u16, u32>>,
    name_key: u16,
    email_key: u16,
) -> bool {
    &&& forall|k: int, l: int| 0 <= k < l < r.len() ==> r[k].uid < r[l].uid
    &&& forall|k: int|
        0 <= k < r.len() ==> {
            let uid = (#[trigger] r[k]).uid;
            &&& table.contains_key(uid)
            &&& opt_str(r[k].name) == var_text(items, table, uid, name_key)
            &&& opt_str(r[k].email) == var_text(items, table, uid, email_key)
            &&& (r[k].name is Some || r[k].email is Some)
        }
    &&& forall|uid: u32|
        table.contains_key(uid) && (var_text(items, table, uid, name_key) is Some || var_text(
            items,
            table,
            uid,
            email_key,
        ) is Some) ==> exists|k: int| 0 <= k < r.len() && #[trigger] r[k].uid == uid
}

/// The resource streams are readable and their metadata is valid.
pub open spec fn resources_readable(c: MppContainer) -> bool {
    &&& c.stream_bytes("TBkndRsc/VarMeta"@) matches Some(vm) && vm.len() >= 4 && var_meta_magic_ok(
        le_u32(vm, 0),
    )
    &&& c.stream_bytes("TBkndRsc/Var2Data"@) is Some
}

/// `e` is the error of reading the resource storage of `c`.
pub open spec fn resources_failure(c: MppContainer, e: MppError) -> bool {
    let vm = c.stream_bytes("TBkndRsc/VarMeta"@);
    if vm is None {
        stream_failure(c, "TBkndRsc/VarMeta"@, e)
    } else if !var_meta_valid(vm->0) {
        var_meta_failure(vm->0, "TBkndRsc"@, e)
    } else {
        stream_failure(c, "TBkndRsc/Var2Data"@, e)
    }
}

/// `e` is the error of reading the assignment storage of `c`: that of the
/// first stream that cannot be read or block that is not valid, in the
/// order VarMeta, Var2Data, FixedMeta, FixedData.
pub open spec fn assignments_failure(c: MppContainer, e: MppError) -> bool {
    let vm = c.stream_bytes("TBkndAssn/VarMeta"@);
    let fm = c.stream_bytes("TBkndAssn/FixedMeta"@);
    if vm is None {
        stream_failure(c, "TBkndAssn/VarMeta"@, e)
    } else if !var_meta_valid(vm->0) {
        var_meta_failure(vm->0, "TBkndAssn"@, e)
    } else if c.stream_bytes("TBkndAssn/Var2Data"@) is None {
        stream_failure(c, "TBkndAssn/Var2Data"@, e)
    } else if fm is None {
        stream_failure(c, "TBkndAssn/FixedMeta"@, e)
    } else if fixed_meta_outcome(fm->0, 34) is Err {
        is_corrupt(e, "TBkndAssn"@, fixed_meta_outcome(fm->0, 34)->Err_0)
    } else {
        stream_failure(c, "TBkndAssn/FixedData"@, e)
    }
}

fn text_of(var_data: &Var2Data, var_meta: &VarMeta, uid: u32, key: u16) -> (r: Option<String>)
    ensures
        opt_str(r) == var_text(var_data@, var_meta.table(), uid, key),
{
    match var_data.byte_array(var_meta, uid, key) {
        Some(b) => match get_unicode_string(b, 0) {
            Some(s) => if !s.as_str().is_empty() {
                Some(s)
            } else {
                None
            },
            None => None,
        },
        None => None,
    }
}

/// `res` holds the resources of the resource storage of `c`, read with the
/// field locations `locations`.
pub open spec fn resources_of(
    res: Seq<Resource>,
    c: MppContainer,
    locations: Map<u16, FieldLocation>,
) -> bool {
    let vm = c.stream_bytes("TBkndRsc/VarMeta"@).unwrap();
    resources_read(
        res,
        spec_var2_data(spec_var_meta(vm).1.to_set(), c.stream_bytes("TBkndRsc/Var2Data"@).unwrap()),
        spec_var_meta(vm).0,
        var_key_or(locations, resource::NAME, resource::NAME),
        var_key_or(locations, resource::EMAIL_ADDRESS, resource::EMAIL_ADDRESS),
    )
}

/// Reads the resources.
pub fn read_resources(c: &mut MppContainer, fm: &FieldMap) -> (r: Result<Vec<Resource>, MppError>)
    ensures
        final(c).streams() == old(c).streams(),
        final(c).storages() == old(c).storages(),
        final(c).mask() == old(c).mask(),
        final(c).version() == old(c).version(),
        r is Ok <==> resources_readable(*old(c)),
        r matches Ok(res) ==> resources_of(res@, *old(c), fm.locations()),
        r matches Err(e) ==> resources_failure(*old(c), e),
{
    let dir = "TBkndRsc";
    let vm_bytes = c.stream("TBkndRsc/VarMeta")?;
    let var_meta = VarMeta::parse(vm_bytes.as_slice(), dir)?;
    let v2_bytes = c.stream("TBkndRsc/Var2Data")?;
    let var_data = Var2Data::parse(&var_meta, v2_bytes.as_slice());
    let name_key = match fm.var_key(resource::NAME) {
        Some(k) => k,
        None => resource::NAME,
    };
    let email_key = match fm.var_key(resource::EMAIL_ADDRESS) {
        Some(k) => k,
        None => resource::EMAIL_ADDRESS,
    };
    let ghost items = var_data@;
    let ghost table = var_meta.table();
    let ghost keep = |u: u32|
        var_text(items, table, u, name_key) is Some || var_text(items, table, u, email_key) is Some;
    let uids = var_meta.unique_ids();
    let mut resources: Vec<Resource> = Vec::new();
    let mut i: usize = 0;
    while i < uids.len()
        invariant
            i <= uids@.len(),
            items == var_data@,
            table == var_meta.table(),
            keep == (|u: u32|
                var_text(items, table, u, name_key) is Some || var_text(items, table, u, email_key)
                    is Some),
            resources@.len() == filter_u32(uids@.take(i as int), keep).len(),
            forall|k: int|
                0 <= k < resources@.len() ==> {
                    let uid = (#[trigger] resources@[k]).uid;
                    &&& uid == filter_u32(uids@.take(i as int), keep)[k]
                    &&& opt_str(resources@[k].name) == var_text(items, table, uid, name_key)
                    &&& opt_str(resources@[k].email) == var_text(items, table, uid, email_key)
                },
        decreases uids@.len() - i,
    {
        let uid = uids[i];
        assert(uids@.take(i + 1).drop_last() =~= uids@.take(i as int));
        assert(uids@.take(i + 1).last() == uid);
        let name = text_of(&var_data, &var_meta, uid, name_key);
        let email = text_of(&var_data, &var_meta, uid, email_key);
        if name.is_some() || email.is_some() {
            resources.push(Resource { uid, name, email });
        }
        i = i + 1;
    }
    proof {
        assert(uids@.take(uids@.len() as int) =~= uids@);
        lemma_filter_u32(uids@, keep);
        let f = filter_u32(uids@, keep);
        assert forall|k: int| 0 <= k < resources@.len() implies table.contains_key(
            (#[trigger] resources@[k]).uid,
        ) by {
            assert(uids@.contains(f[k]));
            assert(uids@.to_set().contains(f[k]));
        }
        assert forall|uid: u32|
            table.contains_key(uid) && (var_text(items, table, uid, name_key) is Some || var_text(
                items,
                table,
                uid,
                email_key,
            ) is Some) implies exists|k: int|
            0 <= k < resources@.len() && #[trigger] resources@[k].uid == uid by {
            assert(uids@.to_set().contains(uid));
            let j = choose|j: int| 0 <= j < uids@.len() && uids@[j] == uid;
            assert(keep(uids@[j]));
            assert(f.contains(uids@[j]));
            let k = choose|k: int| 0 <= k < f.len() && f[k] == uids@[j];
            assert(resources@[k].uid == uid);
        }
    }
    Ok(resources)
}

/// Offset of a field in fixed data block 0 or 1 (whatever the block), or
/// `default`.
pub open spec fn fixed_offset_or(locations: Map<u16, FieldLocation>, field: u16, default: int) -> int {
    match spec_location(locations, field) {
        FieldLocation::FixedData { offset, .. } => offset as int,
        _ => default,
    }
}

/// What the assignment reader sees.
pub struct AssignmentSource {
    pub locations: Map<u16, FieldLocation>,
    pub items: Seq<Seq<u8>>,
    pub var_items: Map<u32, Seq<u8>>,
    pub var_table: Map<u32, Map<u16, u32>>,
    pub valid_tasks: Set<u32>,
}

/// A floating-point field as raw bits: at its offset in the item when it
/// lives in fixed data block 0, else in the variable data.
pub open spec fn raw_field(src: AssignmentSource, item: Seq<u8>, uid: u32, field: u16) -> Option<u64> {
    match spec_location(src.locations, field) {
        FieldLocation::FixedData { block, offset } => if block == 0 {
            spec_get_u64(item, offset as int)
        } else {
            None
        },
        FieldLocation::VarData { key } => match var2_field(src.var_items, src.var_table, uid, key) {
            Some(b) => spec_get_u64(b, 0),
            None => None,
        },
        _ => None,
    }
}

/// The assignment stored at item `index`: its uid must have variable data,
/// its task uid must be positive and among the valid tasks, and its
/// resource uid must be non-negative (which also rules out the null
/// resource).
pub open spec fn assignment_at(src: AssignmentSource, index: int) -> Option<Assignment> {
    if !(0 <= index < src.items.len()) {
        None
    } else {
        let item = src.items[index];
        match spec_get_i32(item, fixed_offset_or(src.locations, assignment::UNIQUE_ID, 0)) {
            None => None,
            Some(v) => {
                let uid = v as u32;
                if !has_var_data(src.var_table, uid) {
                    None
                } else {
                    match spec_get_i32(
                        item,
                        fixed_offset_or(src.locations, assignment::TASK_UNIQUE_ID, 4),
                    ) {
                        Some(t) => if t <= 0 {
                            None
                        } else {
                            match spec_get_i32(
                                item,
                                fixed_offset_or(src.locations, assignment::RESOURCE_UNIQUE_ID, 8),
                            ) {
                                Some(rs) => if rs == NULL_RESOURCE_ID || rs < 0
                                    || !src.valid_tasks.contains(t as u32) {
                                    None
                                } else {
                                    Some(
                                        Assignment {
                                            task_uid: t as u32,
                                            resource_uid: rs as u32,
                                            units: raw_field(src, item, uid, assignment::UNITS),
                                            work: raw_field(src, item, uid, assignment::WORK),
                                        },
                                    )
                                },
                                None => None,
                            }
                        },
                        None => None,
                    }
                }
            },
        }
    }
}

/// Assignments of the first `n` items, in item order.
pub open spec fn assignments_upto(src: AssignmentSource, n: int) -> Seq<Assignment>
    decreases n,
{
    if n <= 0 {
        Seq::empty()
    } else {
        let rest = assignments_upto(src, n - 1);
        match assignment_at(src, n - 1) {
            Some(a) => rest.push(a),
            None => rest,
        }
    }
}

/// The assignment streams are readable and their metadata is valid.
pub open spec fn assignments_readable(c: MppContainer) -> bool {
    &&& c.stream_bytes("TBkndAssn/VarMeta"@) matches Some(vm) && vm.len() >= 4 && var_meta_magic_ok(
        le_u32(vm, 0),
    )
    &&& c.stream_bytes("TBkndAssn/Var2Data"@) is Some
    &&& c.stream_bytes("TBkndAssn/FixedMeta"@) matches Some(fm) && fixed_meta_outcome(fm, 34) is Ok
    &&& c.stream_bytes("TBkndAssn/FixedData"@) is Some
}

/// Consecutive 110-byte items of the de-obfuscated assignment data.
pub open spec fn assignment_items(c: MppContainer) -> Seq<Seq<u8>> {
    let data = xor_bytes(c.stream_bytes("TBkndAssn/FixedData"@).unwrap(), c.mask());
    Seq::new(data.len() / 110, |i: int| data.subrange(i * 110, (i + 1) * 110))
}

/// What the assignment reader sees of the assignment storage of `c`.
pub open spec fn assignment_source(
    c: MppContainer,
    locations: Map<u16, FieldLocation>,
    valid_tasks: Set<u32>,
) -> AssignmentSource {
    let vm = c.stream_bytes("TBkndAssn/VarMeta"@).unwrap();
    AssignmentSource {
        locations,
        items: assignment_items(c),
        var_items: spec_var2_data(
            spec_var_meta(vm).1.to_set(),
            c.stream_bytes("TBkndAssn/Var2Data"@).unwrap(),
        ),
        var_table: spec_var_meta(vm).0,
        valid_tasks,
    }
}

/// Offset given by a field location in fixed data (any block), or `d`.
pub open spec fn fixed_at_or(loc: FieldLocation, d: int) -> int {
    match loc {
        FieldLocation::FixedData { offset, .. } => offset as int,
        _ => d,
    }
}

/// What an assignment holds: its uid is the `i32` at the location of field
/// 0 (byte 0 when unmapped) and has variable data; its task is the positive
/// `i32` at the location of field 1 (byte 4 when unmapped) and is one of
/// the valid tasks; its resource is the non-negative `i32` at the location
/// of field 2 (byte 8 when unmapped); its units are the 64 bits of field 7
/// and its work the 64 bits of field 8, read at the field's offset when the
/// field lies in fixed data block 0 and from the uid's variable data entry
/// when it lies there.
pub proof fn assignment_fields_sources(src: AssignmentSource, index: int)
    ensures
        assignment_at(src, index) matches Some(a) ==> {
            let item = src.items[index];
            let raw64 = |field: u16|
                match spec_location(src.locations, field) {
                    FieldLocation::FixedData { block, offset } => if block == 0 {
                        spec_get_u64(item, offset as int)
                    } else {
                        None
                    },
                    FieldLocation::VarData { key } => {
                        let uid = spec_get_i32(
                            item,
                            fixed_at_or(spec_location(src.locations, 0), 0),
                        )->0 as u32;
                        if src.var_table.contains_key(uid) && src.var_table[uid].contains_key(key)
                            && src.var_items.contains_key(src.var_table[uid][key]) {
                            spec_get_u64(src.var_items[src.var_table[uid][key]], 0)
                        } else {
                            None
                        }
                    },
                    _ => None,
                };
            &&& 0 <= index < src.items.len()
            &&& spec_get_i32(item, fixed_at_or(spec_location(src.locations, 0), 0)) is Some
            &&& spec_get_i32(item, fixed_at_or(spec_location(src.locations, 1), 4)) matches Some(
                t,
            ) && t > 0 && a.task_uid == t as u32 && src.valid_tasks.contains(a.task_uid)
            &&& spec_get_i32(item, fixed_at_or(spec_location(src.locations, 2), 8)) matches Some(
                rs,
            ) && rs >= 0 && a.resource_uid == rs as u32
            &&& a.units == raw64(7)
            &&& a.work == raw64(8)
        },
{
}

/// Each resource's name is the non-empty string of its name entry and its
/// email the non-empty string of its email entry, each read on its own:
/// the one does not depend on the other.
pub proof fn resource_fields_sources(
    r: Seq<Resource>,
    items: Map<u32, Seq<u8>>,
    table: Map<u32, Map<u16, u32>>,
    name_key: u16,
    email_key: u16,
)
    requires
        resources_read(r, items, table, name_key, email_key),
    ensures
        forall|k: int|
            0 <= k < r.len() ==> {
                let uid = (#[trigger] r[k]).uid;
                let text = |key: u16|
                    if table.contains_key(uid) && table[uid].contains_key(key) && items.contains_key(
                        table[uid][key],
                    ) && spec_unicode_string(items[table[uid][key]], 0) is Some
                        && spec_unicode_string(items[table[uid][key]], 0)->0.len() > 0 {
                        Some(spec_unicode_string(items[table[uid][key]], 0)->0)
                    } else {
                        None
                    };
                &&& opt_str(r[k].name) == text(name_key)
                &&& opt_str(r[k].email) == text(email_key)
            },
{
}

/// The resources of a file are read with the name under the variable data
/// key of field 1 and the email under that of field 35 (the field's own
/// index when the map does not give one).
pub proof fn resource_keys(res: Seq<Resource>, c: MppContainer, locations: Map<u16, FieldLocation>)
    requires
        resources_of(res, c, locations),
    ensures
        ({
            let vm = c.stream_bytes("TBkndRsc/VarMeta"@).unwrap();
            let key = |field: u16|
                match spec_location(locations, field) {
                    FieldLocation::VarData { key } => key,
                    _ => field,
                };
            resources_read(
                res,
                spec_var2_data(
                    spec_var_meta(vm).1.to_set(),
                    c.stream_bytes("TBkndRsc/Var2Data"@).unwrap(),
                ),
                spec_var_meta(vm).0,
                key(1),
                key(35),
            )
        }),
{
}

fn raw_field_of(
    fm: &FieldMap,
    var_meta: &VarMeta,
    var_data: &Var2Data,
    item: &[u8],
    uid: u32,
    field: u16,
) -> (r: Option<u64>)
    ensures
        forall|src: AssignmentSource|
            src.locations == fm.locations() && src.var_items == var_data@ && src.var_table
                == var_meta.table() ==> r == raw_field(src, item@, uid, field),
{
    match fm.location(field) {
        FieldLocation::FixedData { block, offset } => if block == 0 {
            get_u64(item, offset)
        } else {
            None
        },
        FieldLocation::VarData { key } => match var_data.byte_array(var_meta, uid, key) {
            Some(b) => get_u64(b, 0),
            None => None,
        },
        _ => None,
    }
}

/// The assignment of one item, as `assignment_at` describes it.
fn assignment_of(
    fm: &FieldMap,
    var_meta: &VarMeta,
    var_data: &Var2Data,
    item: &[u8],
    valid_task_uids: &BTreeSet<u32>,
    uid_off: usize,
    task_off: usize,
    rsc_off: usize,
    Ghost(src): Ghost<AssignmentSource>,
) -> (r: Option<Assignment>)
    requires
        src.locations == fm.locations(),
        src.var_items == var_data@,
        src.var_table == var_meta.table(),
        src.valid_tasks == valid_task_uids@,
        uid_off == fixed_offset_or(src.locations, assignment::UNIQUE_ID, 0),
        task_off == fixed_offset_or(src.locations, assignment::TASK_UNIQUE_ID, 4),
        rsc_off == fixed_offset_or(src.locations, assignment::RESOURCE_UNIQUE_ID, 8),
    ensures
        forall|index: int|
            0 <= index < src.items.len() && src.items[index] == item@ ==> r == assignment_at(
                src,
                index,
            ),
{
    let uid = match get_i32(item, uid_off) {
        Some(v) => v as u32,
        None => {
            return None;
        },
    };
    let types = var_meta.types_for(uid);
    proof {
        if var_meta.table().contains_key(uid) {
            if types@.len() > 0 {
                assert(types@.to_set().contains(types@[0]));
                assert(var_meta.table()[uid].dom().contains(types@[0]));
            } else {
                assert(types@.to_set() =~= Set::<u16>::empty());
            }
        }
    }
    if types.len() == 0 {
        return None;
    }
    let task_uid = match get_i32(item, task_off) {
        Some(t) => if t > 0 {
            t
        } else {
            return None;
        },
        None => {
            return None;
        },
    };
    let rsc_uid = match get_i32(item, rsc_off) {
        Some(r) => if r != NULL_RESOURCE_ID && r >= 0 {
            r
        } else {
            return None;
        },
        None => {
            return None;
        },
    };
    if !valid_task_uids.contains(&(task_uid as u32)) {
        return None;
    }
    let units = raw_field_of(fm, var_meta, var_data, item, uid, assignment::UNITS);
    let work = raw_field_of(fm, var_meta, var_data, item, uid, assignment::WORK);
    Some(Assignment { task_uid: task_uid as u32, resource_uid: rsc_uid as u32, units, work })
}

/// Reads the assignments whose task is among `valid_task_uids`.
pub fn read_assignments(
    c: &mut MppContainer,
    fm: &FieldMap,
    valid_task_uids: &BTreeSet<u32>,
) -> (r: Result<Vec<Assignment>, MppError>)
    ensures
        final(c).streams() == old(c).streams(),
        final(c).storages() == old(c).storages(),
        final(c).mask() == old(c).mask(),
        final(c).version() == old(c).version(),
        r is Ok <==> assignments_readable(*old(c)),
        r matches Ok(list) ==> {
            let src = assignment_source(*old(c), fm.locations(), valid_task_uids@);
            list@ == assignments_upto(src, src.items.len() as int)
        },
        r matches Err(e) ==> assignments_failure(*old(c), e),
{
    let dir = "TBkndAssn";
    let vm_bytes = c.stream("TBkndAssn/VarMeta")?;
    let var_meta = VarMeta::parse(vm_bytes.as_slice(), dir)?;
    let v2_bytes = c.stream("TBkndAssn/Var2Data")?;
    let var_data = Var2Data::parse(&var_meta, v2_bytes.as_slice());
    let fm_bytes = c.stream("TBkndAssn/FixedMeta")?;
    let _meta = FixedMeta::parse(fm_bytes.as_slice(), 34, dir)?;
    let data_bytes = c.stream_decrypted("TBkndAssn/FixedData")?;
    let data = FixedData::parse_sequential(data_bytes.as_slice(), 110);
    let ghost src = AssignmentSource {
        locations: fm.locations(),
        items: assignment_items(*old(c)),
        var_items: var_data@,
        var_table: var_meta.table(),
        valid_tasks: valid_task_uids@,
    };
    assert forall|i: int| 0 <= i < data@.len() implies #[trigger] data@[i] == Some(
        src.items[i],
    ) by {}
    let uid_off: usize = match fm.fixed_offset(assignment::UNIQUE_ID) {
        Some((_, o)) => o,
        None => 0,
    };
    let task_off: usize = match fm.fixed_offset(assignment::TASK_UNIQUE_ID) {
        Some((_, o)) => o,
        None => 4,
    };
    let rsc_off: usize = match fm.fixed_offset(assignment::RESOURCE_UNIQUE_ID) {
        Some((_, o)) => o,
        None => 8,
    };
    let mut assignments: Vec<Assignment> = Vec::new();
    let n = data.item_count();
    let mut index: usize = 0;
    while index < n
        invariant
            n == data@.len(),
            n == src.items.len(),
            index <= n,
            forall|i: int| 0 <= i < data@.len() ==> #[trigger] data@[i] == Some(src.items[i]),
            src.locations == fm.locations(),
            src.var_items == var_data@,
            src.var_table == var_meta.table(),
            src.valid_tasks == valid_task_uids@,
            uid_off == fixed_offset_or(src.locations, assignment::UNIQUE_ID, 0),
            task_off == fixed_offset_or(src.locations, assignment::TASK_UNIQUE_ID, 4),
            rsc_off == fixed_offset_or(src.locations, assignment::RESOURCE_UNIQUE_ID, 8),
            assignments@ == assignments_upto(src, index as int),
        decreases n - index,
    {
        let item = data.item(index).unwrap();
        assert(item@ == src.items[index as int]);
        let next = assignment_of(
            fm, &var_meta, &var_data, item, valid_task_uids, uid_off, task_off, rsc_off, Ghost(src),
        );
        assert(next == assignment_at(src, index as int));
        if let Some(a) = next {
            assignments.push(a);
        }
        index = index + 1;
    }
    Ok(assignments)
}

} // verus!
