//! Reader for Microsoft Project `.mpp` files in the MPP14 layout
//! (Project 2010 to 365): tasks, dependencies, resources and assignments.

pub mod blocks;
pub mod container;
pub mod dec;
pub mod error;
pub mod field_map;
pub mod model;
pub mod reader;
pub mod order;
pub mod text;
pub mod util;
pub mod version;

use vstd::prelude::*;

use blocks::fixed_data::{fixed_data_item, populated};
use blocks::fixed_meta::fixed_meta_outcome;
use blocks::var_meta::{spec_var_meta, table_pairs};
use container::{open_result, opened_from, props_failure, spec_open, MppContainer, OpenOutcome};
use reader::tasks::{task_blocks_failure, task_blocks_of, task_blocks_readable};
use reader::{file_props, project_failure, project_read, project_readable, props_readable};
use util::copy_range;

pub use error::MppError;
pub use model::{
    Assignment, ConstraintType, ProjectFile, ProjectProperties, Relation, RelationType, Resource,
    Task,
};

verus! {

/// Reads an `.mpp` file held in memory.
pub fn read_mpp_bytes(data: &[u8]) -> (r: Result<ProjectFile, MppError>)
    ensures
        match spec_open(data@) {
            OpenOutcome::Opened { .. } => exists|c: MppContainer|
                #[trigger] opened_from(c, data@) && match r {
                    Ok(pf) => project_readable(c) && project_read(pf, c),
                    Err(e) => !project_readable(c) && project_failure(c, e),
                },
            _ => r matches Err(e) && open_result(Err(e), data@),
        },
{
    let bytes = copy_range(data, 0, data.len());
    assert(bytes@ == data@);
    let mut container = MppContainer::open(bytes)?;
    reader::read_project_file(&mut container)
}

/// Structural summary of an `.mpp` file, for diagnosis.
pub struct MppSummary {
    /// Name of the application that wrote the file (`CompObj`).
    pub application_name: String,
    /// Format identifier (`MSProject.MPP14`).
    pub file_format: String,
    /// Internal version of the application (14 = Project 2010, 15 = 2013,
    /// 16 = 2016 and later).
    pub application_version: u32,
    /// Number of properties in the project Props.
    pub project_props_count: usize,
    pub tasks: BlockSetSummary,
}

/// Counts of the task blocks.
pub struct BlockSetSummary {
    /// Distinct uids in the VarMeta.
    pub var_uid_count: usize,
    /// `(uid, type)` entries in the VarMeta.
    pub var_entry_count: usize,
    /// Items declared by the FixedMeta.
    pub fixed_item_count: usize,
    /// FixedData items that can actually be read.
    pub fixed_populated_count: usize,
}

/// The summary that `inspect` gives of `c`.
pub open spec fn summary_of(s: MppSummary, c: MppContainer) -> bool {
    let vm = c.stream_bytes("TBkndTask/VarMeta"@).unwrap();
    let meta = fixed_meta_outcome(c.stream_bytes("TBkndTask/FixedMeta"@).unwrap(), 47)->Ok_0;
    let data = Seq::new(
        meta.len(),
        |i: int| fixed_data_item(meta, c.stream_bytes("TBkndTask/FixedData"@).unwrap(), 0, i),
    );
    &&& s.application_name@ == c.app_name()
    &&& s.file_format@ == c.format()
    &&& s.application_version == c.version()
    &&& s.project_props_count == file_props(c).len()
    &&& s.tasks.var_uid_count == spec_var_meta(vm).0.dom().len()
    &&& s.tasks.var_entry_count == table_pairs(spec_var_meta(vm).0).len()
    &&& s.tasks.fixed_item_count == meta.len()
    &&& s.tasks.fixed_populated_count == populated(data).len()
}

/// Statistics of the task blocks of an opened file.
pub fn inspect(container: MppContainer) -> (r: Result<MppSummary, MppError>)
    ensures
        r is Ok <==> props_readable(container) && task_blocks_readable(container),
        r matches Ok(s) ==> summary_of(s, container),
        r matches Err(e) ==> if !props_readable(container) {
            props_failure(container, e)
        } else {
            task_blocks_failure(container, e)
        },
{
    let mut container = container;
    let ghost c0 = container;
    let application_name = container.application_name().to_owned();
    let file_format = container.file_format().to_owned();
    let application_version = container.application_version();
    let props = container.project_props()?;
    let blocks = reader::tasks::read_blocks(&mut container)?;
    let populated_items = blocks.fixed_data.iter();
    proof {
        let meta = fixed_meta_outcome(c0.stream_bytes("TBkndTask/FixedMeta"@).unwrap(), 47)->Ok_0;
        let data = Seq::new(
            meta.len(),
            |i: int| fixed_data_item(meta, c0.stream_bytes("TBkndTask/FixedData"@).unwrap(), 0, i),
        );
        assert(blocks.fixed_data@ =~= data);
    }
    Ok(
        MppSummary {
            application_name,
            file_format,
            application_version,
            project_props_count: props.len(),
            tasks: BlockSetSummary {
                var_uid_count: blocks.var_meta.uid_count(),
                var_entry_count: blocks.var_meta.entry_count(),
                fixed_item_count: blocks.fixed_meta.item_count(),
                fixed_populated_count: populated_items.len(),
            },
        },
    )
}

} // verus!
