//! Indices of the resource fields.

use vstd::prelude::*;

verus! {

pub const NAME: u16 = 1;

pub const UNIQUE_ID: u16 = 27;

pub const EMAIL_ADDRESS: u16 = 35;

} // verus!
