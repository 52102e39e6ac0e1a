//! Domain model produced by the reader: project properties, tasks with
//! their dependencies, resources and assignments.
//!
//! Quantities that the file stores as IEEE 754 doubles (work, cost,
//! assignment units) are kept as the raw bits of the stored value, and
//! durations as the stored tenths of minutes with their unit; converting
//! them to hours, currency or days is floating-point arithmetic left to the
//! caller.

use vstd::prelude::*;

use crate::dec::TimeUnit;

verus! {

/// View of an optional string.
pub open spec fn opt_str(o: Option<String>) -> Option<Seq<char>> {
    match o {
        Some(s) => Some(s@),
        None => None,
    }
}

/// Project-wide properties.
#[derive(Debug, Default, Clone)]
pub struct ProjectProperties {
    pub title: Option<String>,
    /// Dates `YYYY-MM-DD`.
    pub start_date: Option<String>,
    pub finish_date: Option<String>,
    pub minutes_per_day: Option<u32>,
    pub minutes_per_week: Option<u32>,
    pub days_per_month: Option<u32>,
}

/// A stored duration: tenths of a minute and the unit it was entered in.
#[derive(Debug, Clone, Copy, PartialEq, Eq, Structural)]
pub struct Duration {
    pub tenths_of_minute: i32,
    pub units: TimeUnit,
}

/// Kind of dependency between tasks.
#[derive(Debug, Clone, Copy, PartialEq, Eq, Structural)]
pub enum RelationType {
    FinishFinish,
    FinishStart,
    StartFinish,
    StartStart,
}

/// The eight constraint types of MS Project.
#[derive(Debug, Clone, Copy, PartialEq, Eq, Structural)]
pub enum ConstraintType {
    AsSoonAsPossible,
    AsLateAsPossible,
    MustStartOn,
    MustFinishOn,
    StartNoEarlierThan,
    StartNoLaterThan,
    FinishNoEarlierThan,
    FinishNoLaterThan,
}

/// Dependency on a predecessor task.
#[derive(Debug, Clone, Copy, PartialEq, Eq, Structural)]
pub struct Relation {
    pub predecessor_uid: u32,
    pub kind: RelationType,
    /// Lag; `None` when the file records none (a lag of zero).
    pub lag: Option<Duration>,
}

/// A task.
#[derive(Debug, Clone)]
pub struct Task {
    pub uid: u32,
    pub id: Option<u32>,
    pub name: Option<String>,
    pub wbs: Option<String>,
    pub outline_level: Option<u32>,
    /// UID of the parent summary task (`None` at the root).
    pub parent_uid: Option<u32>,
    pub is_summary: bool,
    pub is_milestone: bool,
    pub start_date: Option<String>,
    pub finish_date: Option<String>,
    pub duration: Option<Duration>,
    /// Raw bits of the stored work (a double, in thousandths of a minute).
    pub work: Option<u64>,
    pub percent_complete: Option<u32>,
    pub priority: Option<u32>,
    pub constraint_type: Option<ConstraintType>,
    pub constraint_date: Option<String>,
    pub deadline: Option<String>,
    /// Raw bits of the stored cost (a double, in hundredths).
    pub cost: Option<u64>,
    pub notes: Option<String>,
    pub predecessors: Vec<Relation>,
}

/// A resource.
#[derive(Debug, Clone)]
pub struct Resource {
    pub uid: u32,
    pub name: Option<String>,
    pub email: Option<String>,
}

/// A task-resource assignment.
#[derive(Debug, Clone, Copy, PartialEq, Eq, Structural)]
pub struct Assignment {
    pub task_uid: u32,
    pub resource_uid: u32,
    /// Raw bits of the stored units (a double, in percent).
    pub units: Option<u64>,
    /// Raw bits of the stored work (a double, in thousandths of a minute).
    pub work: Option<u64>,
}

/// Everything read from a file.
#[derive(Debug, Clone)]
pub struct ProjectFile {
    pub properties: ProjectProperties,
    pub tasks: Vec<Task>,
    pub resources: Vec<Resource>,
    pub assignments: Vec<Assignment>,
}

} // verus!
