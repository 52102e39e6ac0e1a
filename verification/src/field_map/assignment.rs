//! Indices of the assignment fields.

use vstd::prelude::*;

verus! {

pub const UNIQUE_ID: u16 = 0;

pub const TASK_UNIQUE_ID: u16 = 1;

pub const RESOURCE_UNIQUE_ID: u16 = 2;

pub const UNITS: u16 = 7;

pub const WORK: u16 = 8;

} // verus!
