//! Per-zone flag bits.
use vstd::prelude::*;

verus! {

pub const FREE: u8 = 0x1;
pub const MULTI: u8 = 0x2;

} // verus!
