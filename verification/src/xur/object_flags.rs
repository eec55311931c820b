//! Object flags (bitmask in the flags byte after the class name).
use vstd::prelude::*;

verus! {

pub const HAS_PROPERTIES: u8 = 0x01;
pub const HAS_CHILDREN: u8 = 0x02;
pub const HAS_TIMELINE: u8 = 0x04;
pub const HAS_ID: u8 = 0x08;

} // verus!
