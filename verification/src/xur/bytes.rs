//! Big-endian integer reads over byte slices.
use byteorder::BigEndian;
use byteorder::ByteOrder;
use vstd::prelude::*;

verus! {

/// The big-endian value of two bytes.
pub open spec fn be16(b0: u8, b1: u8) -> int {
    b0 as int * 0x100 + b1 as int
}

/// The big-endian value of four bytes.
pub open spec fn be32(b0: u8, b1: u8, b2: u8, b3: u8) -> int {
    b0 as int * 0x1000000 + b1 as int * 0x10000 + b2 as int * 0x100 + b3 as int
}

/// The big-endian `u16` at `pos` in `s`.
pub open spec fn be16_at(s: Seq<u8>, pos: int) -> u16 {
    be16(s[pos], s[pos + 1]) as u16
}

/// The big-endian `u32` at `pos` in `s`.
pub open spec fn be32_at(s: Seq<u8>, pos: int) -> u32 {
    be32(s[pos], s[pos + 1], s[pos + 2], s[pos + 3]) as u32
}

/// `BigEndian::read_u16`: the first two bytes of `buf`, most significant first.
/// It panics on a shorter buffer, which `requires` leaves out.
#[verifier::external_body]
pub(crate) fn read_be_u16(buf: &[u8]) -> (r: u16)
    requires
        buf@.len() >= 2,
    ensures
        r as int == be16(buf@[0], buf@[1]),
{
    BigEndian::read_u16(buf)
}

/// `BigEndian::read_u32`: the first four bytes of `buf`, most significant first.
/// It panics on a shorter buffer, which `requires` leaves out.
#[verifier::external_body]
pub(crate) fn read_be_u32(buf: &[u8]) -> (r: u32)
    requires
        buf@.len() >= 4,
    ensures
        r as int == be32(buf@[0], buf@[1], buf@[2], buf@[3]),
{
    BigEndian::read_u32(buf)
}

/// The big-endian `u16` at `pos`.
pub fn u16_at(s: &[u8], pos: usize) -> (r: u16)
    requires
        pos + 2 <= s@.len(),
    ensures
        r == be16_at(s@, pos as int),
{
    let _n = s.len();
    let r = read_be_u16(&s[pos..pos + 2]);
    proof {
        assert(0 <= be16(s@[pos as int], s@[pos + 1]) < 0x10000) by (nonlinear_arith)
            requires
                0 <= s@[pos as int] < 256,
                0 <= s@[pos + 1] < 256,
        ;
    }
    r
}

/// The big-endian `u32` at `pos`.
pub fn u32_at(s: &[u8], pos: usize) -> (r: u32)
    requires
        pos + 4 <= s@.len(),
    ensures
        r == be32_at(s@, pos as int),
{
    let _n = s.len();
    let r = read_be_u32(&s[pos..pos + 4]);
    r
}

} // verus!
