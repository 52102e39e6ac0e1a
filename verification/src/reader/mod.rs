//! Domain readers: turn blocks into the model.

pub mod project_props;
pub mod tasks;
pub mod relations;
pub mod resources;

use std::collections::BTreeSet;

use vstd::prelude::*;

use crate::blocks::fixed_data::fixed_data_item;
use crate::blocks::fixed_meta::{candidate_item_size, fixed_meta_outcome};
use crate::blocks::props::spec_props;
use crate::blocks::var2_data::spec_var2_data;
use crate::blocks::var_meta::spec_var_meta;
use crate::container::{project_path, props_failure, xor_bytes, MppContainer};
use crate::error::{is_corrupt, MppError};
use crate::field_map::{
    first_present, spec_field_map, FieldMap, ScanState, ASSIGNMENT_FIELD_BASE, ASSIGNMENT_KEYS,
    RESOURCE_FIELD_BASE, RESOURCE_KEYS, TASK_FIELD_BASE, TASK_KEYS,
};
use crate::model::{ProjectFile, Task};
use crate::order::lemma_u32_keys_ordered;
use project_props::properties_of;
use relations::{
    relation_items, relations_attached, relations_by_successor, relations_failure, relations_readable,
};
use resources::{
    assignment_source, assignments_failure, assignments_readable, assignments_upto, resources_failure,
    resources_of, resources_readable,
};
use tasks::{
    fixed2_candidates, task_blocks_failure, task_blocks_readable, task_source, tasks_read, TaskSource,
};

verus! {

broadcast use vstd::std_specs::btree::group_btree_axioms;

/// The project Props stream is present and holds at least its header.
pub open spec fn props_readable(c: MppContainer) -> bool {
    c.stream_bytes("Props"@) is Some && xor_bytes(c.stream_bytes("Props"@).unwrap(), c.mask()).len()
        >= 16
}

/// The project properties of `c`.
pub open spec fn file_props(c: MppContainer) -> Map<i32, Seq<u8>> {
    spec_props(xor_bytes(c.stream_bytes("Props"@).unwrap(), c.mask()))
}

/// The field map of one entity, scanned from the first Props entry among
/// `keys`.
pub open spec fn file_field_map(c: MppContainer, keys: Seq<i32>, base: i32) -> ScanState {
    spec_field_map(first_present(file_props(c), keys)->0, base)
}

/// What the task reader sees of `c`, with the field map `scan`.
pub open spec fn file_task_source(c: MppContainer, scan: ScanState) -> TaskSource {
    let vm = c.stream_bytes("TBkndTask/VarMeta"@).unwrap();
    let meta = fixed_meta_outcome(c.stream_bytes("TBkndTask/FixedMeta"@).unwrap(), 47)->Ok_0;
    let f2m = c.stream_bytes("TBkndTask/Fixed2Meta"@).unwrap();
    let meta2 = fixed_meta_outcome(
        f2m,
        candidate_item_size(f2m, meta.len() as int, fixed2_candidates()) as int,
    )->Ok_0;
    TaskSource {
        locations: scan.items,
        max_size: scan.max0,
        meta,
        meta2,
        data: Seq::new(
            meta.len(),
            |i: int| fixed_data_item(meta, c.stream_bytes("TBkndTask/FixedData"@).unwrap(), 0, i),
        ),
        data2: Seq::new(
            meta2.len(),
            |i: int| fixed_data_item(meta2, c.stream_bytes("TBkndTask/Fixed2Data"@).unwrap(), 0, i),
        ),
        var_table: spec_var_meta(vm).0,
        var_items: spec_var2_data(
            spec_var_meta(vm).1.to_set(),
            c.stream_bytes("TBkndTask/Var2Data"@).unwrap(),
        ),
    }
}

/// Every block that the project reader needs is present and valid.
pub open spec fn project_readable(c: MppContainer) -> bool {
    &&& props_readable(c)
    &&& first_present(file_props(c), TASK_KEYS@) is Some
    &&& task_blocks_readable(c)
    &&& relations_readable(c)
    &&& first_present(file_props(c), RESOURCE_KEYS@) is Some
    &&& resources_readable(c)
    &&& first_present(file_props(c), ASSIGNMENT_KEYS@) is Some
    &&& assignments_readable(c)
}

/// Detail of the error of a file that carries no serialized field map.
pub open spec fn no_field_map() -> Seq<char> {
    "el archivo no trae field map serializado (defaults no implementados)"@
}

/// `e` is the error of reading the project of `c`: that of the first part
/// that cannot be read, in the order Props, task field map, task blocks,
/// relations, resource field map, resources, assignment field map,
/// assignments.
pub open spec fn project_failure(c: MppContainer, e: MppError) -> bool {
    let p = file_props(c);
    if !props_readable(c) {
        props_failure(c, e)
    } else if first_present(p, TASK_KEYS@) is None {
        is_corrupt(e, "TASK_FIELD_MAP"@, no_field_map())
    } else if !task_blocks_readable(c) {
        task_blocks_failure(c, e)
    } else if !relations_readable(c) {
        relations_failure(c, e)
    } else if first_present(p, RESOURCE_KEYS@) is None {
        is_corrupt(e, "RESOURCE_FIELD_MAP"@, no_field_map())
    } else if !resources_readable(c) {
        resources_failure(c, e)
    } else if first_present(p, ASSIGNMENT_KEYS@) is None {
        is_corrupt(e, "ASSIGNMENT_FIELD_MAP"@, no_field_map())
    } else {
        assignments_failure(c, e)
    }
}

/// `after` is `before` with the dependencies of `c` attached (unchanged
/// when the file has no dependency storage).
pub open spec fn with_relations(before: Seq<Task>, after: Seq<Task>, c: MppContainer) -> bool {
    if !c.streams().contains_key(project_path("TBkndCons/FixedMeta"@)) {
        after == before
    } else {
        let (meta, data) = relation_items(c);
        relations_attached(
            before,
            after,
            relations_by_successor(meta, data, c.version(), meta.len() as int),
        )
    }
}

/// The uids of `tasks`.
pub open spec fn task_uids(tasks: Seq<Task>) -> Set<u32> {
    tasks.map_values(|t: Task| t.uid).to_set()
}

/// `pf` is what the project reader gives back for `c`: its properties,
/// its tasks with their dependencies, its resources, and the assignments
/// whose task is one of those tasks.
pub open spec fn project_read(pf: ProjectFile, c: MppContainer) -> bool {
    &&& properties_of(pf.properties, file_props(c))
    &&& exists|before: Seq<Task>|
        #![trigger tasks_read(before, file_task_source(c, file_field_map(c, TASK_KEYS@, TASK_FIELD_BASE)), c.version())]
        tasks_read(
            before,
            file_task_source(c, file_field_map(c, TASK_KEYS@, TASK_FIELD_BASE)),
            c.version(),
        ) && with_relations(before, pf.tasks@, c)
    &&& resources_of(
        pf.resources@,
        c,
        file_field_map(c, RESOURCE_KEYS@, RESOURCE_FIELD_BASE).items,
    )
    &&& {
        let src = assignment_source(
            c,
            file_field_map(c, ASSIGNMENT_KEYS@, ASSIGNMENT_FIELD_BASE).items,
            task_uids(pf.tasks@),
        );
        pf.assignments@ == assignments_upto(src, src.items.len() as int)
    }
}

/// The set of the uids of `tasks`.
fn uid_set(tasks: &Vec<Task>) -> (r: BTreeSet<u32>)
    ensures
        r@ == task_uids(tasks@),
{
    let mut set: BTreeSet<u32> = BTreeSet::new();
    let mut i: usize = 0;
    while i < tasks.len()
        invariant
            i <= tasks@.len(),
            set@ == task_uids(tasks@.take(i as int)),
        decreases tasks@.len() - i,
    {
        proof {
            lemma_u32_keys_ordered();
            assert(tasks@.take(i + 1) == tasks@.take(i as int).push(tasks@[i as int]));
            assert(tasks@.take(i + 1).map_values(|t: Task| t.uid) =~= tasks@.take(
                i as int,
            ).map_values(|t: Task| t.uid).push(tasks@[i as int].uid));
            tasks@.take(i as int).map_values(|t: Task| t.uid).lemma_push_to_set_commute(
                tasks@[i as int].uid,
            );
        }
        set.insert(tasks[i].uid);
        i = i + 1;
    }
    assert(tasks@.take(tasks@.len() as int) =~= tasks@);
    set
}

/// Each assignment of the first `n` items names a valid task and a real
/// resource (never the null resource).
pub proof fn assignments_name_valid_tasks(src: resources::AssignmentSource, n: int)
    ensures
        forall|k: int|
            0 <= k < assignments_upto(src, n).len() ==> {
                let a = #[trigger] assignments_upto(src, n)[k];
                &&& src.valid_tasks.contains(a.task_uid)
                &&& a.task_uid > 0
                &&& a.resource_uid <= i32::MAX
            },
    decreases n,
{
    if n > 0 {
        assignments_name_valid_tasks(src, n - 1);
    }
}

/// The tasks of a project come in strictly ascending uid order, so no uid
/// occurs twice.
pub proof fn project_tasks_sorted_by_uid(pf: ProjectFile, c: MppContainer)
    requires
        project_read(pf, c),
    ensures
        forall|k: int, l: int|
            0 <= k < l < pf.tasks@.len() ==> pf.tasks@[k].uid < pf.tasks@[l].uid,
{
    let before = choose|before: Seq<Task>|
        tasks_read(
            before,
            file_task_source(c, file_field_map(c, TASK_KEYS@, TASK_FIELD_BASE)),
            c.version(),
        ) && with_relations(before, pf.tasks@, c);
    if c.streams().contains_key(project_path("TBkndCons/FixedMeta"@)) {
        assert forall|k: int, l: int|
            0 <= k < l < pf.tasks@.len() implies pf.tasks@[k].uid < pf.tasks@[l].uid by {
            assert(pf.tasks@[k].uid == before[k].uid);
            assert(pf.tasks@[l].uid == before[l].uid);
        }
    }
}

/// A task of a project is a summary exactly when another task of the
/// project names it as its parent.
pub proof fn project_summaries_are_parents(pf: ProjectFile, c: MppContainer)
    requires
        project_read(pf, c),
    ensures
        forall|k: int|
            0 <= k < pf.tasks@.len() ==> (#[trigger] pf.tasks@[k]).is_summary == exists|j: int|
                0 <= j < pf.tasks@.len() && pf.tasks@[j].parent_uid == Some(pf.tasks@[k].uid),
{
    let before = choose|before: Seq<Task>|
        tasks_read(
            before,
            file_task_source(c, file_field_map(c, TASK_KEYS@, TASK_FIELD_BASE)),
            c.version(),
        ) && with_relations(before, pf.tasks@, c);
    if c.streams().contains_key(project_path("TBkndCons/FixedMeta"@)) {
        assert forall|k: int| 0 <= k < pf.tasks@.len() implies (#[trigger] pf.tasks@[k]).is_summary
            == exists|j: int|
            0 <= j < pf.tasks@.len() && pf.tasks@[j].parent_uid == Some(pf.tasks@[k].uid) by {
            assert(pf.tasks@[k].uid == before[k].uid);
            assert(pf.tasks@[k].is_summary == before[k].is_summary);
            assert(before[k].is_summary == exists|j: int|
                0 <= j < before.len() && before[j].parent_uid == Some(before[k].uid));
            if before[k].is_summary {
                let j = choose|j: int|
                    0 <= j < before.len() && before[j].parent_uid == Some(before[k].uid);
                assert(pf.tasks@[j].parent_uid == before[j].parent_uid);
            }
            if exists|j: int|
                0 <= j < pf.tasks@.len() && pf.tasks@[j].parent_uid == Some(pf.tasks@[k].uid) {
                let j = choose|j: int|
                    0 <= j < pf.tasks@.len() && pf.tasks@[j].parent_uid == Some(pf.tasks@[k].uid);
                assert(pf.tasks@[j].parent_uid == before[j].parent_uid);
            }
        }
    }
}

/// Every assignment of a project names one of the project's tasks.
pub proof fn project_assignments_name_tasks(pf: ProjectFile, c: MppContainer)
    requires
        project_read(pf, c),
    ensures
        forall|k: int|
            0 <= k < pf.assignments@.len() ==> exists|j: int|
                0 <= j < pf.tasks@.len() && #[trigger] pf.tasks@[j].uid
                    == (#[trigger] pf.assignments@[k]).task_uid,
{
    let src = assignment_source(
        c,
        file_field_map(c, ASSIGNMENT_KEYS@, ASSIGNMENT_FIELD_BASE).items,
        task_uids(pf.tasks@),
    );
    assignments_name_valid_tasks(src, src.items.len() as int);
    assert forall|k: int| 0 <= k < pf.assignments@.len() implies exists|j: int|
        0 <= j < pf.tasks@.len() && #[trigger] pf.tasks@[j].uid == (
        #[trigger] pf.assignments@[k]).task_uid by {
        let a = pf.assignments@[k];
        assert(assignments_upto(src, src.items.len() as int)[k] == a);
        assert(task_uids(pf.tasks@).contains(a.task_uid));
        let uids = pf.tasks@.map_values(|t: Task| t.uid);
        assert(uids.to_set().contains(a.task_uid));
        let j = choose|j: int| 0 <= j < uids.len() && uids[j] == a.task_uid;
        assert(pf.tasks@[j].uid == a.task_uid);
    }
}

/// Reads the whole project: properties, tasks with their dependencies,
/// resources and assignments.
pub fn read_project_file(c: &mut MppContainer) -> (r: Result<ProjectFile, MppError>)
    ensures
        r is Ok <==> project_readable(*old(c)),
        r matches Ok(pf) ==> project_read(pf, *old(c)),
        r matches Err(e) ==> project_failure(*old(c), e),
{
    let ghost c0 = *c;
    let props = c.project_props()?;
    let properties = project_props::read(&props);
    let task_fm = FieldMap::for_tasks(&props)?;
    let blocks = tasks::read_blocks(c)?;
    let version = c.application_version();
    let mut tasks = tasks::read_tasks(&task_fm, &blocks, version);
    let ghost before = tasks@;
    proof {
        let src = file_task_source(c0, file_field_map(c0, TASK_KEYS@, TASK_FIELD_BASE));
        let got = task_source(&task_fm, &blocks);
        assert(got.data =~= src.data);
        assert(got.data2 =~= src.data2);
        assert(got == src);
    }
    relations::attach_relations(c, &mut tasks)?;
    let resource_fm = FieldMap::for_resources(&props)?;
    let resources = resources::read_resources(c, &resource_fm)?;
    let uids = uid_set(&tasks);
    let assignment_fm = FieldMap::for_assignments(&props)?;
    let assignments = resources::read_assignments(c, &assignment_fm, &uids)?;
    let pf = ProjectFile { properties, tasks, resources, assignments };
    assert(with_relations(before, pf.tasks@, c0));
    Ok(pf)
}

} // verus!
