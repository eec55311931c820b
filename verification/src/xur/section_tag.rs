//! Section tag four-character codes.
use vstd::prelude::*;

verus! {

pub const STRN: &'static [u8; 4] = &[0x53, 0x54, 0x52, 0x4e];
pub const VECT: &'static [u8; 4] = &[0x56, 0x45, 0x43, 0x54];
pub const QUAT: &'static [u8; 4] = &[0x51, 0x55, 0x41, 0x54];
pub const CUST: &'static [u8; 4] = &[0x43, 0x55, 0x53, 0x54];
pub const DATA: &'static [u8; 4] = &[0x44, 0x41, 0x54, 0x41];
pub const FLOT: &'static [u8; 4] = &[0x46, 0x4c, 0x4f, 0x54];
pub const COLR: &'static [u8; 4] = &[0x43, 0x4f, 0x4c, 0x52];
pub const NAME: &'static [u8; 4] = &[0x4e, 0x41, 0x4d, 0x45];
pub const KEYD: &'static [u8; 4] = &[0x4b, 0x45, 0x59, 0x44];
pub const KEYP: &'static [u8; 4] = &[0x4b, 0x45, 0x59, 0x50];

} // verus!
