//! Indices of the task fields (low word of the field type value).
//! 29, 35 and 36 are the *scheduled* variants used by MPP14 files.

use vstd::prelude::*;

verus! {

pub const WORK: u16 = 0;

pub const COST: u16 = 5;

pub const NAME: u16 = 14;

pub const NOTES: u16 = 15;

pub const WBS: u16 = 16;

pub const CONSTRAINT_TYPE: u16 = 17;

pub const CONSTRAINT_DATE: u16 = 18;

pub const ID: u16 = 23;

pub const PRIORITY: u16 = 25;

pub const SCHEDULED_DURATION: u16 = 29;

pub const DURATION_UNITS: u16 = 30;

pub const PERCENT_COMPLETE: u16 = 32;

pub const SCHEDULED_START: u16 = 35;

pub const SCHEDULED_FINISH: u16 = 36;

pub const OUTLINE_LEVEL: u16 = 85;

pub const UNIQUE_ID: u16 = 86;

pub const PARENT_TASK_UNIQUE_ID: u16 = 160;

pub const OUTLINE_LEVEL_ALT: u16 = 249;

pub const DEADLINE: u16 = 437;

/// "Task Start" in MPP14: the manually entered start.
pub const START: u16 = 1283;

/// "Task Finish" in MPP14: the manually entered finish.
pub const FINISH: u16 = 1284;

} // verus!
