//! XUR v5 binary parser.
//!
//! Encoding rules (from xam_1888.exe reverse engineering):
//!
//! Object: u16(class_name) + u8(flags) + [properties] + [children] + [timelines]
//!
//! Properties: u16(total_value_count), then one bitmask + values block per
//! class level: XuiElement first, then each derived level.
//!
//! Bitmask: first byte, low 3 bits = N (extra bytes: 0, 1, 2, or 4)
//!   N==0: no properties; N==1: u8; N==2: u16 BE; N==4: u32 BE.
//!   For each set bit: read a typed value.
//!
//! Compound (type 9): u16(value_count) + one nested bitmask + values block.
//!
//! Array properties: first byte: if < 0x80 -> count = byte; else consume
//! (byte & 0x7f) more bytes, big-endian.
//!
//! Children: u32(child_count) + child_count * Object
use vstd::prelude::*;

use super::archive::eof_error;
use super::bytes::be16_at;
use super::bytes::be32_at;
use super::bytes::u16_at;
use super::bytes::u32_at;
use super::error::error_is;
use super::error::PErr;
use super::error::ParseError;
use super::header::find_section;
use super::header::opt_section_bytes;
use super::header::section_bytes;
use super::header::section_get;
use super::header::section_view;
use super::header::spec_opt_section_bytes;
use super::header::spec_section_bytes;
use super::header::spec_section_or_empty;
use super::header::parse_header;
use super::header::parse_section_headers;
use super::header::section_table;
use super::header::sections_view;
use super::header::spec_find_section;
use super::header::spec_header;
use super::header::SHeader;
use super::header::SSection;
use super::header::HEADER_SIZE;
use super::header::SECTION_HEADER_SIZE;
use super::object_flags;
use super::section_tag;
use super::tables::array_property;
use super::tables::compound_sub_types;
use super::tables::get_compound_sub_types;
use super::tables::get_hierarchy;
use super::tables::is_array_property;
use super::tables::spec_hierarchy;
use super::tables::type_at;
use super::tables::type_of;
use super::tables::TypeTable;
use super::group_view;
use super::groups_view;
use super::lemma_group_view;
use super::lemma_object_value_view;
use super::lemma_object_view;
use super::object_view;
use super::objects_view;
use super::string_at;
use super::strings_view;
use super::value_view;
use super::values_view;
use super::Object;
use super::PropType;
use super::PropertyGroup;
use super::PropertyValue;
use super::SGroup;
use super::SObject;
use super::SValue;
use super::SXur;
use super::Xur;
use super::SectionHeader;
use crate::text::dec;
use crate::text::decode_unit;
use crate::text::push_char;
use crate::text::push_dec;
use crate::text::push_str;
use crate::text::unit_char;

verus! {

// ---------------------------------------------------------------------------
// Byte reads
// ---------------------------------------------------------------------------

pub open spec fn rd8(d: Seq<u8>, p: int) -> Result<(u8, int), PErr> {
    if 0 <= p && p + 1 <= d.len() {
        Ok((d[p], p + 1))
    } else {
        Err(PErr::Io)
    }
}

pub open spec fn rd16(d: Seq<u8>, p: int) -> Result<(u16, int), PErr> {
    if 0 <= p && p + 2 <= d.len() {
        Ok((be16_at(d, p), p + 2))
    } else {
        Err(PErr::Io)
    }
}

pub open spec fn rd32(d: Seq<u8>, p: int) -> Result<(u32, int), PErr> {
    if 0 <= p && p + 4 <= d.len() {
        Ok((be32_at(d, p), p + 4))
    } else {
        Err(PErr::Io)
    }
}

/// A read position over a byte slice. A failed read moves the position to
/// the end.
pub struct Cursor<'a> {
    pub data: &'a [u8],
    pub pos: usize,
}

impl<'a> Cursor<'a> {
    pub open spec fn inv(&self) -> bool {
        self.pos <= self.data@.len() <= usize::MAX
    }

    pub fn new(data: &'a [u8]) -> (c: Self)
        ensures
            c.data == data,
            c.pos == 0,
            c.inv(),
    {
        let _n = data.len();
        Cursor { data, pos: 0 }
    }

    pub fn remaining(&self) -> (n: usize)
        requires
            self.inv(),
        ensures
            n == self.data@.len() - self.pos,
    {
        self.data.len() - self.pos
    }

    fn fail(&mut self) -> (e: ParseError)
        ensures
            final(self).data == old(self).data,
            final(self).pos == old(self).data@.len(),
            e is Io,
    {
        self.pos = self.data.len();
        ParseError::Io(eof_error("failed to fill whole buffer"))
    }

    pub fn read_u8(&mut self) -> (r: Result<u8, ParseError>)
        requires
            old(self).inv(),
        ensures
            r is Err ==> final(self).pos == old(self).data@.len(),
            final(self).data == old(self).data,
            final(self).inv(),
            match rd8(old(self).data@, old(self).pos as int) {
                Ok((v, p)) => r matches Ok(x) && x == v && final(self).pos == p,
                Err(e) => r matches Err(x) && error_is(x, e),
            },
    {
        if self.remaining() < 1 {
            return Err(self.fail());
        }
        let v = self.data[self.pos];
        self.pos = self.pos + 1;
        Ok(v)
    }

    pub fn read_u16(&mut self) -> (r: Result<u16, ParseError>)
        requires
            old(self).inv(),
        ensures
            r is Err ==> final(self).pos == old(self).data@.len(),
            final(self).data == old(self).data,
            final(self).inv(),
            match rd16(old(self).data@, old(self).pos as int) {
                Ok((v, p)) => r matches Ok(x) && x == v && final(self).pos == p,
                Err(e) => r matches Err(x) && error_is(x, e),
            },
    {
        if self.remaining() < 2 {
            return Err(self.fail());
        }
        let v = u16_at(self.data, self.pos);
        self.pos = self.pos + 2;
        Ok(v)
    }

    pub fn read_u32(&mut self) -> (r: Result<u32, ParseError>)
        requires
            old(self).inv(),
        ensures
            r is Err ==> final(self).pos == old(self).data@.len(),
            final(self).data == old(self).data,
            final(self).inv(),
            match rd32(old(self).data@, old(self).pos as int) {
                Ok((v, p)) => r matches Ok(x) && x == v && final(self).pos == p,
                Err(e) => r matches Err(x) && error_is(x, e),
            },
    {
        if self.remaining() < 4 {
            return Err(self.fail());
        }
        let v = u32_at(self.data, self.pos);
        self.pos = self.pos + 4;
        Ok(v)
    }

    /// Skips `n` bytes, or fails when fewer remain.
    pub fn skip(&mut self, n: u64) -> (r: Result<(), ParseError>)
        requires
            old(self).inv(),
        ensures
            r is Err ==> final(self).pos == old(self).data@.len(),
            final(self).data == old(self).data,
            final(self).inv(),
            if old(self).pos + n <= old(self).data@.len() {
                r is Ok && final(self).pos == old(self).pos + n
            } else {
                r matches Err(x) && x is Io
            },
    {
        if n > self.remaining() as u64 {
            return Err(self.fail());
        }
        self.pos = self.pos + n as usize;
        Ok(())
    }
}

// ---------------------------------------------------------------------------
// Encoding primitives
// ---------------------------------------------------------------------------

/// A v5 length-prefixed bitmask: the low 3 bits of the first byte give the
/// number of bitmask bytes after it (0, 1, 2 or 4; 3, 5, 6 and 7 are skipped
/// and read as an empty mask).
pub open spec fn v5_bitmask(d: Seq<u8>, p: int) -> Result<(u32, int), PErr> {
    match rd8(d, p) {
        Err(e) => Err(e),
        Ok((first, p1)) => {
            let n = first & 7;
            if n == 0 {
                Ok((0, p1))
            } else if n == 1 {
                match rd8(d, p1) {
                    Ok((b, p2)) => Ok((b as u32, p2)),
                    Err(e) => Err(e),
                }
            } else if n == 2 {
                match rd16(d, p1) {
                    Ok((b, p2)) => Ok((b as u32, p2)),
                    Err(e) => Err(e),
                }
            } else if n == 4 {
                rd32(d, p1)
            } else if p1 + n <= d.len() {
                Ok((0, p1 + n))
            } else {
                Err(PErr::Io)
            }
        },
    }
}

/// A v5 bitmask takes one length byte and then as many bytes as the length
/// byte's low three bits say; a length of 1, 2 or 4 gives the big-endian
/// number of those bytes, any other length an empty mask.
pub proof fn lemma_v5_bitmask_layout(d: Seq<u8>, p: int)
    requires
        0 <= p < d.len(),
    ensures
        v5_bitmask(d, p) matches Ok((m, q)) ==> {
            let n = d[p] % 8;
            &&& q == p + 1 + n
            &&& (n == 1 ==> m == d[p + 1])
            &&& (n == 2 ==> m == d[p + 1] * 0x100 + d[p + 2])
            &&& (n == 4 ==> m == d[p + 1] * 0x100_0000 + d[p + 2] * 0x1_0000 + d[p + 3] * 0x100
                + d[p + 4])
            &&& (n != 1 && n != 2 && n != 4 ==> m == 0)
        },
{
    let b = d[p];
    assert(b & 7 == b % 8) by (bit_vector);
}

fn read_v5_bitmask(c: &mut Cursor) -> (r: Result<u32, ParseError>)
    requires
        old(c).inv(),
    ensures
        r is Err ==> final(c).pos == old(c).data@.len(),
        final(c).data == old(c).data,
        final(c).inv(),
        match v5_bitmask(old(c).data@, old(c).pos as int) {
            Ok((v, p)) => r matches Ok(x) && x == v && final(c).pos == p,
            Err(e) => r matches Err(x) && error_is(x, e),
        },
{
    let first = c.read_u8()?;
    let n = first & 7;
    if n == 0 {
        Ok(0)
    } else if n == 1 {
        Ok(c.read_u8()? as u32)
    } else if n == 2 {
        Ok(c.read_u16()? as u32)
    } else if n == 4 {
        c.read_u32()
    } else {
        // Sizes 3, 5, 6, 7 are not used by the v5 runtime
        c.skip(n as u64)?;
        Ok(0)
    }
}

/// The big-endian value of `bs`, keeping the low 32 bits.
pub open spec fn fold_be(bs: Seq<u8>) -> u32
    decreases bs.len(),
{
    if bs.len() == 0 {
        0
    } else {
        (fold_be(bs.drop_last()) << 8u32) | (bs.last() as u32)
    }
}

/// A v5 array count: a first byte below 0x80 is the count; otherwise the
/// count is the next `first & 0x7f` bytes, big-endian.
pub open spec fn v5_array_count(d: Seq<u8>, p: int) -> Result<(u32, int), PErr> {
    match rd8(d, p) {
        Err(e) => Err(e),
        Ok((first, p1)) => if first < 0x80 {
            Ok((first as u32, p1))
        } else {
            let extra = first & 0x7f;
            if p1 + extra <= d.len() {
                Ok((fold_be(d.subrange(p1, p1 + extra)), p1 + extra))
            } else {
                Err(PErr::Io)
            }
        },
    }
}

fn read_v5_array_count(c: &mut Cursor) -> (r: Result<u32, ParseError>)
    requires
        old(c).inv(),
    ensures
        r is Err ==> final(c).pos == old(c).data@.len(),
        final(c).data == old(c).data,
        final(c).inv(),
        match v5_array_count(old(c).data@, old(c).pos as int) {
            Ok((v, p)) => r matches Ok(x) && x == v && final(c).pos == p,
            Err(e) => r matches Err(x) && error_is(x, e),
        },
{
    let first = c.read_u8()?;
    if first < 0x80 {
        Ok(first as u32)
    } else {
        // Multi-byte count: (first & 0x7f) additional bytes
        let extra = first & 0x7f;
        let ghost d = c.data@;
        let ghost p1 = c.pos as int;
        if extra as usize > c.remaining() {
            return Err(c.fail());
        }
        let mut val: u32 = 0;
        let mut k: u8 = 0;
        assert(d.subrange(p1, p1) =~= Seq::<u8>::empty());
        while k < extra
            invariant
                c.data == old(c).data,
                c.data@ == d,
                c.inv(),
                k <= extra,
                0 <= p1,
                p1 + extra <= d.len(),
                c.pos == p1 + k,
                val == fold_be(d.subrange(p1, p1 + k)),
            decreases extra - k,
        {
            let b = c.read_u8()?;
            assert(b == d[p1 + k]);
            assert(p1 + k + 1 <= d.len());
            assert(d.subrange(p1, p1 + k + 1).drop_last() =~= d.subrange(p1, p1 + k));
            assert(d.subrange(p1, p1 + k + 1).last() == b);
            val = (val << 8u32) | (b as u32);
            k = k + 1;
        }
        Ok(val)
    }
}

// ---------------------------------------------------------------------------
// Property values
// ---------------------------------------------------------------------------

/// Whether bit `bit` of `bitmask` is set.
pub open spec fn bit_set(bitmask: u32, bit: u32) -> bool {
    bitmask & (1u32 << bit) != 0
}

/// The type of property `bit` in `types`, `Unsigned` past the table's end.
pub open spec fn prop_type_or_unsigned(types: TypeTable, bit: u32) -> PropType {
    match type_of(types, bit as int) {
        Some(t) => t,
        None => PropType::Unsigned,
    }
}

pub open spec fn cat<T>(pre: Seq<T>, r: Result<(Seq<T>, int), PErr>) -> Result<(Seq<T>, int), PErr> {
    match r {
        Ok((s, q)) => Ok((pre + s, q)),
        Err(e) => Err(e),
    }
}

/// A single typed value at `p`. `parent` and `bit` say where a compound's
/// sub-types come from.
pub open spec fn v5_single(d: Seq<u8>, p: int, ty: PropType, parent: TypeTable, bit: u32) -> Result<
    (SValue, int),
    PErr,
>
    decreases d.len() - p, 2int, 0int,
{
    match ty {
        PropType::Bool => match rd8(d, p) {
            Ok((b, q)) => Ok((SValue::Bool(b != 0), q)),
            Err(e) => Err(e),
        },
        PropType::Integer | PropType::Unsigned => match rd32(d, p) {
            Ok((v, q)) => Ok((SValue::Unsigned(v), q)),
            Err(e) => Err(e),
        },
        PropType::Float => match rd32(d, p) {
            Ok((v, q)) => Ok((SValue::Float(v), q)),
            Err(e) => Err(e),
        },
        PropType::String => match rd16(d, p) {
            Ok((v, q)) => Ok((SValue::String(v as u32), q)),
            Err(e) => Err(e),
        },
        PropType::Color => match rd32(d, p) {
            Ok((v, q)) => Ok((SValue::Color(v), q)),
            Err(e) => Err(e),
        },
        PropType::Vector3 => match rd32(d, p) {
            Ok((v, q)) => Ok((SValue::Vector(v), q)),
            Err(e) => Err(e),
        },
        PropType::Quaternion => match rd32(d, p) {
            Ok((v, q)) => Ok((SValue::Quaternion(v), q)),
            Err(e) => Err(e),
        },
        PropType::Custom => match rd32(d, p) {
            Ok((v, q)) => Ok((SValue::Custom(v), q)),
            Err(e) => Err(e),
        },
        PropType::Compound => v5_compound(d, p, compound_sub_types(parent, bit)),
    }
}

/// A compound value: u16 value count, then one bitmask + values block over
/// the sub-types (none known: every value is a u32).
pub open spec fn v5_compound(d: Seq<u8>, p: int, sub: Option<TypeTable>) -> Result<
    (SValue, int),
    PErr,
>
    decreases d.len() - p, 1int, 0int,
{
    match rd16(d, p) {
        Err(e) => Err(e),
        Ok((_, p1)) => match v5_bitmask(d, p1) {
            Err(e) => Err(e),
            Ok((bm, p2)) => if bm == 0 {
                Ok((SValue::Object(Seq::empty()), p2))
            } else {
                let types = match sub {
                    Some(t) => t,
                    None => TypeTable::Empty,
                };
                match v5_values(d, p2, bm, types, 0) {
                    Ok((vals, p3)) => Ok(
                        (SValue::Object(seq![SGroup { bitmask: bm, values: vals, level: 0 }]), p3),
                    ),
                    Err(e) => Err(e),
                }
            },
        },
    }
}

/// A v5 value is of the kind its property type holds. A word type (integer,
/// unsigned, float, color, vector, quaternion, custom) carries the big-endian
/// `u32` at `p` and takes four bytes; a string carries the `u16` index at `p`
/// and takes two; a flag is the byte at `p` being non-zero.
pub proof fn lemma_v5_value_has_type(d: Seq<u8>, p: int, ty: PropType, parent: TypeTable, bit: u32)
    ensures
        v5_single(d, p, ty, parent, bit) matches Ok((v, q)) ==> {
            &&& super::value_has_type(ty, v)
            &&& (ty == PropType::Bool ==> q == p + 1 && v == SValue::Bool(d[p] != 0))
            &&& (ty == PropType::String ==> q == p + 2 && super::value_word(v) == be16_at(d, p))
            &&& (ty != PropType::Bool && ty != PropType::String && ty != PropType::Compound ==> q
                == p + 4 && super::value_word(v) == be32_at(d, p))
        },
{
}

/// `n` values of one array property.
pub open spec fn v5_array(d: Seq<u8>, p: int, n: nat, ty: PropType, types: TypeTable, bit: u32) -> Result<
    (Seq<SValue>, int),
    PErr,
>
    decreases d.len() - p, 3int, n,
{
    if n == 0 {
        Ok((Seq::empty(), p))
    } else {
        match v5_single(d, p, ty, types, bit) {
            Err(e) => Err(e),
            Ok((v, q)) => if q <= p || q > d.len() {
                Err(PErr::Io)
            } else {
                cat(seq![v], v5_array(d, q, (n - 1) as nat, ty, types, bit))
            },
        }
    }
}

/// The values for the bits of `bm` from `bit` on, typed by `types`.
pub open spec fn v5_values(d: Seq<u8>, p: int, bm: u32, types: TypeTable, bit: u32) -> Result<
    (Seq<SValue>, int),
    PErr,
>
    decreases d.len() - p, 4int, 32 - bit,
{
    if bit >= 32 {
        Ok((Seq::empty(), p))
    } else if !bit_set(bm, bit) {
        v5_values(d, p, bm, types, (bit + 1) as u32)
    } else {
        let ty = prop_type_or_unsigned(types, bit);
        if array_property(types, bit) {
            match v5_array_count(d, p) {
                Err(e) => Err(e),
                Ok((count, p1)) => if p1 <= p || p1 > d.len() {
                    Err(PErr::Io)
                } else {
                    match v5_array(d, p1, count as nat, ty, types, bit) {
                        Err(e) => Err(e),
                        Ok((vs, p2)) => if p2 < p1 || p2 > d.len() {
                            Err(PErr::Io)
                        } else {
                            cat(vs, v5_values(d, p2, bm, types, (bit + 1) as u32))
                        },
                    }
                },
            }
        } else {
            match v5_single(d, p, ty, types, bit) {
                Err(e) => Err(e),
                Ok((v, q)) => if q <= p || q > d.len() {
                    Err(PErr::Io)
                } else {
                    cat(seq![v], v5_values(d, q, bm, types, (bit + 1) as u32))
                },
            }
        }
    }
}

/// Reads property values given a bitmask and type table.
fn read_property_values(c: &mut Cursor, bitmask: u32, types: TypeTable) -> (r: Result<
    PropertyGroup,
    ParseError,
>)
    requires
        old(c).inv(),
    ensures
        r is Err ==> final(c).pos == old(c).data@.len(),
        final(c).data == old(c).data,
        final(c).inv(),
        match v5_values(old(c).data@, old(c).pos as int, bitmask, types, 0) {
            Ok((vs, p)) => r matches Ok(g) && g.bitmask == bitmask && g.level == 0 && values_view(
                g.values@,
            ) == vs && final(c).pos == p && old(c).pos <= p,
            Err(e) => r matches Err(x) && error_is(x, e),
        },
    decreases old(c).data@.len() - old(c).pos, 4int, 33int,
{
    let ghost d = c.data@;
    let ghost p0 = c.pos as int;
    let mut values: Vec<PropertyValue> = Vec::new();
    let mut bit: u32 = 0;
    assert(v5_values(d, p0, bitmask, types, 0) == cat(
        values_view(values@),
        v5_values(d, p0, bitmask, types, 0),
    )) by {
        if let Ok((s, q)) = v5_values(d, p0, bitmask, types, 0) {
            assert(values_view(values@) + s =~= s);
        }
    }
    while bit < 32
        invariant
            c.data == old(c).data,
            d == old(c).data@,
            p0 == old(c).pos,
            c.data@ == d,
            c.inv(),
            p0 <= c.pos,
            bit <= 32,
            v5_values(d, p0, bitmask, types, 0) == cat(
                values_view(values@),
                v5_values(d, c.pos as int, bitmask, types, bit),
            ),
        decreases 32 - bit,
    {
        if bitmask & (1u32 << bit) == 0 {
            bit = bit + 1;
            continue;
        }
        let prop_type = match type_at(types, bit) {
            Some(t) => t,
            None => PropType::Unsigned,
        };
        let ghost p = c.pos as int;
        let ghost pre = values_view(values@);
        if is_array_property(types, bit) {
            let count = read_v5_array_count(c)?;
            let ghost p1 = c.pos as int;
            let mut k: u32 = 0;
            let ghost pre1 = values_view(values@);
            assert(v5_array(d, p1, count as nat, prop_type, types, bit) == cat(
                Seq::<SValue>::empty(),
                v5_array(d, p1, count as nat, prop_type, types, bit),
            )) by {
                if let Ok((s, q)) = v5_array(d, p1, count as nat, prop_type, types, bit) {
                    assert(Seq::<SValue>::empty() + s =~= s);
                }
            }
            while k < count
                invariant
                    c.data == old(c).data,
                    d == old(c).data@,
                    p0 == old(c).pos,
                    c.data@ == d,
                    c.inv(),
                    p0 <= p < p1 <= c.pos,
                    k <= count,
                    bit < 32,
                    bit_set(bitmask, bit),
                    array_property(types, bit),
                    prop_type == prop_type_or_unsigned(types, bit),
                    pre == pre1,
                    v5_array_count(d, p) == Ok::<(u32, int), PErr>((count, p1)),
                    v5_values(d, p0, bitmask, types, 0) == cat(
                        pre,
                        v5_values(d, p, bitmask, types, bit),
                    ),
                    values_view(values@).len() >= pre1.len(),
                    values_view(values@).subrange(0, pre1.len() as int) == pre1,
                    v5_array(d, p1, count as nat, prop_type, types, bit) == cat(
                        values_view(values@).subrange(pre1.len() as int, values@.len() as int),
                        v5_array(d, c.pos as int, (count - k) as nat, prop_type, types, bit),
                    ),
                decreases count - k,
            {
                let ghost q0 = c.pos as int;
                let ghost before = values@;
                let v = read_single_value(c, prop_type, types, bit)?;
                values.push(v);
                proof {
                    assert(values_view(values@) =~= values_view(before).push(value_view(v)));
                    let mid = values_view(before).subrange(pre1.len() as int, before.len() as int);
                    assert(values_view(values@).subrange(pre1.len() as int, values@.len() as int)
                        =~= mid + seq![value_view(v)]);
                    assert(values_view(values@).subrange(0, pre1.len() as int) =~= pre1);
                    let rest = v5_array(
                        d,
                        c.pos as int,
                        (count - k - 1) as nat,
                        prop_type,
                        types,
                        bit,
                    );
                    if let Ok((s, q)) = rest {
                        assert(mid + (seq![value_view(v)] + s) =~= (mid + seq![value_view(v)])
                            + s);
                    }
                }
                k = k + 1;
            }
            proof {
                let arr = values_view(values@).subrange(pre1.len() as int, values@.len() as int);
                assert(arr + Seq::<SValue>::empty() =~= arr);
                assert(values_view(values@) =~= pre1 + arr);
                let rest = v5_values(d, c.pos as int, bitmask, types, (bit + 1) as u32);
                if let Ok((s, q)) = rest {
                    assert(pre1 + (arr + s) =~= (pre1 + arr) + s);
                }
            }
        } else {
            let ghost before = values@;
            let v = read_single_value(c, prop_type, types, bit)?;
            values.push(v);
            proof {
                assert(values_view(values@) =~= values_view(before).push(value_view(v)));
                let rest = v5_values(d, c.pos as int, bitmask, types, (bit + 1) as u32);
                if let Ok((s, q)) = rest {
                    assert(values_view(before) + (seq![value_view(v)] + s) =~= values_view(
                        values@,
                    ) + s);
                }
            }
        }
        bit = bit + 1;
    }
    proof {
        assert(values_view(values@) + Seq::<SValue>::empty() =~= values_view(values@));
    }
    Ok(PropertyGroup { bitmask, values, level: 0 })
}

/// Reads a single typed property value.
fn read_single_value(c: &mut Cursor, prop_type: PropType, parent_types: TypeTable, bit: u32) -> (r:
    Result<PropertyValue, ParseError>)
    requires
        old(c).inv(),
    ensures
        r is Err ==> final(c).pos == old(c).data@.len(),
        final(c).data == old(c).data,
        final(c).inv(),
        match v5_single(old(c).data@, old(c).pos as int, prop_type, parent_types, bit) {
            Ok((v, p)) => r matches Ok(x) && value_view(x) == v && final(c).pos == p && old(c).pos
                < p,
            Err(e) => r matches Err(x) && error_is(x, e),
        },
    decreases old(c).data@.len() - old(c).pos, 2int, 0int,
{
    let val = match prop_type {
        PropType::Bool => PropertyValue::Bool(c.read_u8()? != 0),
        PropType::Integer | PropType::Unsigned => PropertyValue::Unsigned(c.read_u32()?),
        PropType::Float => PropertyValue::Float(c.read_u32()?),
        PropType::String => PropertyValue::String(c.read_u16()? as u32),
        PropType::Color => PropertyValue::Color(c.read_u32()?),
        PropType::Vector3 => PropertyValue::Vector(c.read_u32()?),
        PropType::Quaternion => PropertyValue::Quaternion(c.read_u32()?),
        PropType::Custom => PropertyValue::Custom(c.read_u32()?),
        PropType::Compound => {
            let sub_types = get_compound_sub_types(parent_types, bit);
            read_compound_value(c, sub_types)?
        },
    };
    Ok(val)
}

/// Reads a compound property (type 9).
/// v5 format: u16(value_count) + one nested bitmask + values block.
/// No compound index in the stream: sub-definitions come from the class tables.
fn read_compound_value(c: &mut Cursor, sub_types: Option<TypeTable>) -> (r: Result<
    PropertyValue,
    ParseError,
>)
    requires
        old(c).inv(),
    ensures
        r is Err ==> final(c).pos == old(c).data@.len(),
        final(c).data == old(c).data,
        final(c).inv(),
        match v5_compound(old(c).data@, old(c).pos as int, sub_types) {
            Ok((v, p)) => r matches Ok(x) && value_view(x) == v && final(c).pos == p && old(c).pos
                < p,
            Err(e) => r matches Err(x) && error_is(x, e),
        },
    decreases old(c).data@.len() - old(c).pos, 1int, 0int,
{
    let _value_count = c.read_u16()?;
    let bitmask = read_v5_bitmask(c)?;
    if bitmask == 0 {
        let empty: Vec<PropertyGroup> = Vec::new();
        proof {
            lemma_object_value_view(empty);
            assert(groups_view(empty@) =~= Seq::<SGroup>::empty());
        }
        return Ok(PropertyValue::Object(empty));
    }
    let types = match sub_types {
        Some(t) => t,
        None => TypeTable::Empty,
    };
    let group = read_property_values(c, bitmask, types)?;
    let ghost gv = group_view(group);
    proof {
        lemma_group_view(group);
    }
    let mut groups: Vec<PropertyGroup> = Vec::new();
    groups.push(group);
    proof {
        lemma_object_value_view(groups);
        assert(groups_view(groups@) =~= seq![gv]);
    }
    Ok(PropertyValue::Object(groups))
}

/// Values for an unknown derived class level: one u32 per set bit.
pub open spec fn v5_unknown(d: Seq<u8>, p: int, bm: u32, bit: u32) -> Result<
    (Seq<SValue>, int),
    PErr,
>
    decreases 32 - bit,
{
    if bit >= 32 {
        Ok((Seq::empty(), p))
    } else if !bit_set(bm, bit) {
        v5_unknown(d, p, bm, (bit + 1) as u32)
    } else {
        match rd32(d, p) {
            Err(e) => Err(e),
            Ok((v, q)) => cat(seq![SValue::Unsigned(v)], v5_unknown(d, q, bm, (bit + 1) as u32)),
        }
    }
}

/// Reads values for an unknown derived class level (all as u32).
fn read_unknown_values(c: &mut Cursor, bitmask: u32) -> (r: Result<PropertyGroup, ParseError>)
    requires
        old(c).inv(),
    ensures
        r is Err ==> final(c).pos == old(c).data@.len(),
        final(c).data == old(c).data,
        final(c).inv(),
        match v5_unknown(old(c).data@, old(c).pos as int, bitmask, 0) {
            Ok((vs, p)) => r matches Ok(g) && g.bitmask == bitmask && g.level == 0 && values_view(
                g.values@,
            ) == vs && final(c).pos == p && old(c).pos <= p,
            Err(e) => r matches Err(x) && error_is(x, e),
        },
{
    let ghost d = c.data@;
    let ghost p0 = c.pos as int;
    let mut values: Vec<PropertyValue> = Vec::new();
    let mut bit: u32 = 0;
    assert(v5_unknown(d, p0, bitmask, 0) == cat(
        values_view(values@),
        v5_unknown(d, p0, bitmask, 0),
    )) by {
        if let Ok((s, q)) = v5_unknown(d, p0, bitmask, 0) {
            assert(values_view(values@) + s =~= s);
        }
    }
    while bit < 32
        invariant
            c.data == old(c).data,
            d == old(c).data@,
            p0 == old(c).pos,
            c.data@ == d,
            c.inv(),
            p0 <= c.pos,
            bit <= 32,
            v5_unknown(d, p0, bitmask, 0) == cat(
                values_view(values@),
                v5_unknown(d, c.pos as int, bitmask, bit),
            ),
        decreases 32 - bit,
    {
        if bitmask & (1u32 << bit) == 0 {
            bit = bit + 1;
            continue;
        }
        let ghost before = values@;
        let v = c.read_u32()?;
        values.push(PropertyValue::Unsigned(v));
        proof {
            assert(values_view(values@) =~= values_view(before).push(SValue::Unsigned(v)));
            let rest = v5_unknown(d, c.pos as int, bitmask, (bit + 1) as u32);
            if let Ok((s, q)) = rest {
                assert(values_view(before) + (seq![SValue::Unsigned(v)] + s) =~= values_view(
                    values@,
                ) + s);
            }
        }
        bit = bit + 1;
    }
    proof {
        assert(values_view(values@) + Seq::<SValue>::empty() =~= values_view(values@));
    }
    Ok(PropertyGroup { bitmask, values, level: 0 })
}


// ---------------------------------------------------------------------------
// Objects
// ---------------------------------------------------------------------------

/// The derived class levels from `idx` on: one bitmask per level; a level
/// with a non-empty bitmask gives a property group.
pub open spec fn v5_levels(d: Seq<u8>, p: int, hier: Seq<TypeTable>, idx: int) -> Result<
    (Seq<SGroup>, int),
    PErr,
>
    decreases hier.len() - idx,
{
    if idx < 0 || idx >= hier.len() {
        Ok((Seq::empty(), p))
    } else {
        match v5_bitmask(d, p) {
            Err(e) => Err(e),
            Ok((bm, p1)) => if bm == 0 {
                v5_levels(d, p1, hier, idx + 1)
            } else {
                let g = if hier[idx] == TypeTable::Empty {
                    v5_unknown(d, p1, bm, 0)
                } else {
                    v5_values(d, p1, bm, hier[idx], 0)
                };
                match g {
                    Err(e) => Err(e),
                    Ok((vals, p2)) => cat(
                        seq![SGroup { bitmask: bm, values: vals, level: idx + 1 }],
                        v5_levels(d, p2, hier, idx + 1),
                    ),
                }
            },
        }
    }
}

/// The property block of an object of class `class`: u16 value count, the
/// XuiElement level, then the derived levels.
pub open spec fn v5_props(d: Seq<u8>, p: int, class: Seq<char>) -> Result<(Seq<SGroup>, int), PErr> {
    match rd16(d, p) {
        Err(e) => Err(e),
        Ok((_, p1)) => match v5_bitmask(d, p1) {
            Err(e) => Err(e),
            Ok((base, p2)) => if base != 0 {
                match v5_values(d, p2, base, TypeTable::XuiElement, 0) {
                    Err(e) => Err(e),
                    Ok((vals, p3)) => cat(
                        seq![SGroup { bitmask: base, values: vals, level: 0 }],
                        v5_levels(d, p3, spec_hierarchy(class), 0),
                    ),
                }
            } else {
                v5_levels(d, p2, spec_hierarchy(class), 0)
            },
        },
    }
}

/// Keyframe path records: one descriptor byte (depth in the low 7 bits, a
/// value flag in the high bit); `depth + 1` index bytes when the depth is not
/// zero; a u32 when the flag is set.
pub open spec fn v5_paths(d: Seq<u8>, q: int, n: nat) -> Result<int, PErr>
    decreases n,
{
    if n == 0 {
        Ok(q)
    } else {
        match rd8(d, q) {
            Err(e) => Err(e),
            Ok((first, q1)) => {
                let depth = first & 0x7f;
                let size = (if depth > 0 {
                    depth + 1
                } else {
                    0
                }) + (if first & 0x80 != 0 {
                    4int
                } else {
                    0
                });
                if q1 + size <= d.len() {
                    v5_paths(d, q1 + size, (n - 1) as nat)
                } else {
                    Err(PErr::Io)
                }
            },
        }
    }
}

/// Named frames: u16 name, u32 keyframe count, the keyframe paths, u32
/// subtimeline count, and per subtimeline 8 bytes plus 4 per keyframe path.
pub open spec fn v5_frames(d: Seq<u8>, q: int, n: nat) -> Result<int, PErr>
    decreases n,
{
    if n == 0 {
        Ok(q)
    } else {
        match rd16(d, q) {
            Err(e) => Err(e),
            Ok((_, q1)) => match rd32(d, q1) {
                Err(e) => Err(e),
                Ok((kc, q2)) => match v5_paths(d, q2, kc as nat) {
                    Err(e) => Err(e),
                    Ok(q3) => match rd32(d, q3) {
                        Err(e) => Err(e),
                        Ok((sc, q4)) => {
                            let total = sc as int * (8 + 4 * kc as int);
                            if q4 + total <= d.len() {
                                v5_frames(d, q4 + total, (n - 1) as nat)
                            } else {
                                Err(PErr::Io)
                            }
                        },
                    },
                },
            },
        }
    }
}

/// The end of a v5 timeline block: u32 count of 9-byte named timelines, then
/// a u32 count of named frames.
pub open spec fn v5_skip_timelines(d: Seq<u8>, p: int) -> Result<int, PErr> {
    match rd32(d, p) {
        Err(e) => Err(e),
        Ok((tc, p1)) => if p1 + 9 * tc <= d.len() {
            match rd32(d, p1 + 9 * tc) {
                Err(e) => Err(e),
                Ok((nf, p2)) => v5_frames(d, p2, nf as nat),
            }
        } else {
            Err(PErr::Io)
        },
    }
}

/// A failure inside an object: the error and where the reading stands
/// after it.
pub type Failure = (PErr, int);

/// The error of child `i` of `count` that failed with `e`, the reading
/// standing at `q`: a `BadObject` whose message names the child and the
/// position, then gives the message of `e`.
pub open spec fn v5_child_failure(i: nat, count: nat, q: int, e: PErr) -> PErr {
    let pre = "child "@ + dec(i) + "/"@ + dec(count) + " @"@ + dec(q as nat) + ": "@;
    match e {
        PErr::BadObjectText(m) => PErr::BadObjectText(pre + "bad object: "@ + m),
        PErr::BadObjectPrefix(m) => PErr::BadObjectPrefix(pre + "bad object: "@ + m),
        PErr::Io => PErr::BadObjectPrefix(pre + "io: "@),
        _ => PErr::BadObject,
    }
}

pub open spec fn cat_at<T>(pre: Seq<T>, r: Result<(Seq<T>, int), Failure>) -> Result<
    (Seq<T>, int),
    Failure,
> {
    match r {
        Ok((s, q)) => Ok((pre + s, q)),
        Err(f) => Err(f),
    }
}

#[verifier::opaque]
/// An object at `p`: u16 class name (1-based string index), u8 flags, then
/// the properties, the children and the timelines that the flags announce.
/// A failure is the error and where the reading stands after it: past the
/// class name for a null one, where a failing child left it, else at the end
/// of the data.
pub open spec fn v5_object(d: Seq<u8>, strs: Seq<Seq<char>>, p: int) -> Result<(SObject, int), Failure>
    decreases d.len() - p, 0int, 0int,
{
    let end = d.len() as int;
    match rd16(d, p) {
        Err(e) => Err((e, end)),
        Ok((cn16, p1)) => {
            let cn = cn16 as u32;
            if cn == 0 {
                Err((PErr::BadObjectText("null class name @"@ + dec(p as nat)), p1))
            } else {
                let class = match string_at(strs, cn) {
                    Some(s) => s,
                    None => Seq::empty(),
                };
                match rd8(d, p1) {
                    Err(e) => Err((e, end)),
                    Ok((flags, p2)) => {
                        let pr = if flags & 1 != 0 {
                            v5_props(d, p2, class)
                        } else {
                            Ok((Seq::empty(), p2))
                        };
                        match pr {
                            Err(e) => Err((e, end)),
                            Ok((groups, p3)) => if p3 < p2 || p3 > d.len() {
                                Err((PErr::Io, end))
                            } else {
                                let ch = if flags & 2 != 0 {
                                    match rd32(d, p3) {
                                        Err(e) => Err((e, end)),
                                        Ok((count, p4)) => v5_children(d, strs, p4, 0, count as nat),
                                    }
                                } else {
                                    Ok((Seq::empty(), p3))
                                };
                                match ch {
                                    Err(f) => Err(f),
                                    Ok((children, p5)) => {
                                        let tl = if flags & 4 != 0 {
                                            v5_skip_timelines(d, p5)
                                        } else {
                                            Ok(p5)
                                        };
                                        match tl {
                                            Err(e) => Err((e, end)),
                                            Ok(p6) => Ok(
                                                (
                                                    SObject {
                                                        class_name: cn,
                                                        properties: groups,
                                                        children,
                                                        timelines: None,
                                                        raw_props: d.subrange(p2, p3),
                                                    },
                                                    p6,
                                                ),
                                            ),
                                        }
                                    },
                                }
                            },
                        }
                    },
                }
            }
        },
    }
}

/// Children `i..count` from `p`; a failure inside a child names the child.
pub open spec fn v5_children(d: Seq<u8>, strs: Seq<Seq<char>>, p: int, i: nat, count: nat) -> Result<
    (Seq<SObject>, int),
    Failure,
>
    decreases d.len() - p, 1int, count - i,
{
    if i >= count {
        Ok((Seq::empty(), p))
    } else {
        match v5_object(d, strs, p) {
            Err((e, q)) => Err((v5_child_failure(i, count, q, e), q)),
            Ok((o, q)) => if q <= p || q > d.len() {
                Err((PErr::Io, d.len() as int))
            } else {
                cat_at(seq![o], v5_children(d, strs, q, i + 1, count))
            },
        }
    }
}

/// Reads the property block of an object of class `class_str`.
fn read_props(c: &mut Cursor, class_str: &str) -> (r: Result<Vec<PropertyGroup>, ParseError>)
    requires
        old(c).inv(),
    ensures
        r is Err ==> final(c).pos == old(c).data@.len(),
        final(c).data == old(c).data,
        final(c).inv(),
        match v5_props(old(c).data@, old(c).pos as int, class_str@) {
            Ok((gs, p)) => r matches Ok(v) && groups_view(v@) == gs && final(c).pos == p && old(
                c,
            ).pos <= p,
            Err(e) => r matches Err(x) && error_is(x, e),
        },
{
    let ghost d = c.data@;
    let ghost p0 = c.pos as int;
    let mut properties: Vec<PropertyGroup> = Vec::new();
    // u16 total value count (metadata, not used for parsing)
    let _total_count = c.read_u16()?;

    // XuiElement base level: read bitmask + values
    let base_bitmask = read_v5_bitmask(c)?;
    let ghost p_levels;
    if base_bitmask != 0 {
        let group = read_property_values(c, base_bitmask, TypeTable::XuiElement)?;
        proof {
            lemma_group_view(group);
        }
        properties.push(group);
        proof {
            assert(groups_view(properties@) =~= seq![group_view(group)]);
        }
    } else {
        proof {
            assert(groups_view(properties@) =~= Seq::<SGroup>::empty());
        }
    }
    proof {
        p_levels = c.pos as int;
    }

    // Walk the derived class hierarchy (one bitmask per level)
    let hierarchy = get_hierarchy(class_str);
    let ghost hier = hierarchy@;
    let ghost pre = groups_view(properties@);
    assert(v5_props(d, p0, class_str@) == cat(pre, v5_levels(d, p_levels, hier, 0))) by {
        if base_bitmask == 0 {
            if let Ok((s, q)) = v5_levels(d, p_levels, hier, 0) {
                assert(pre + s =~= s);
            }
        }
    }
    let mut level: usize = 0;
    while level < hierarchy.len()
        invariant
            c.data == old(c).data,
            d == old(c).data@,
            p0 == old(c).pos,
            c.data@ == d,
            c.inv(),
            p0 <= c.pos,
            hier == hierarchy@,
            level <= hier.len(),
            v5_props(d, p0, class_str@) == cat(
                groups_view(properties@),
                v5_levels(d, c.pos as int, hier, level as int),
            ),
        decreases hier.len() - level,
    {
        let types = hierarchy[level];
        let bitmask = read_v5_bitmask(c)?;
        if bitmask == 0 {
            level = level + 1;
            continue;
        }
        let mut group = if types == TypeTable::Empty {
            read_unknown_values(c, bitmask)?
        } else {
            read_property_values(c, bitmask, types)?
        };
        group.level = level + 1;  // 0 = XuiElement, 1+ = derived
        let ghost before = properties@;
        proof {
            lemma_group_view(group);
        }
        properties.push(group);
        proof {
            assert(groups_view(properties@) =~= groups_view(before).push(group_view(group)));
            let rest = v5_levels(d, c.pos as int, hier, level + 1);
            if let Ok((s, q)) = rest {
                assert(groups_view(before) + (seq![group_view(group)] + s) =~= groups_view(
                    properties@,
                ) + s);
            }
        }
        level = level + 1;
    }
    proof {
        assert(groups_view(properties@) + Seq::<SGroup>::empty() =~= groups_view(properties@));
    }
    Ok(properties)
}

/// Skips over the timeline data of a v5 object.
/// Format (from sub_100cb730 in xam_1888.exe):
///
/// Phase 1 - Named timelines:
///   u32(count), for each: u16(name) + u32(duration) + u8(type) + u16(from_name)
///
/// Phase 2 - Named frames:
///   u32(frame_count), for each:
///     u16(name) + u32(keyframe_count)
///     Keyframe paths: each is 1 byte (depth|flag) + 2 bytes (if depth>0)
///       + (depth-1) bytes + optional u32 (if flag bit 7)
///     u32(subtimeline_count)
///     Subtimelines: each is 8 bytes fixed + N*4 bytes for animated property values
///       where N = number of keyframe paths (keyframe_count)
fn skip_timelines(c: &mut Cursor) -> (r: Result<(), ParseError>)
    requires
        old(c).inv(),
    ensures
        r is Err ==> final(c).pos == old(c).data@.len(),
        final(c).data == old(c).data,
        final(c).inv(),
        match v5_skip_timelines(old(c).data@, old(c).pos as int) {
            Ok(p) => r is Ok && final(c).pos == p && old(c).pos <= p,
            Err(e) => r matches Err(x) && error_is(x, e),
        },
{
    let ghost d = c.data@;
    let ghost p0 = c.pos as int;
    // Phase 1: named timelines - u32(count), each 9 bytes
    let timeline_count = c.read_u32()?;
    c.skip(9 * timeline_count as u64)?;

    // Phase 2: named frames
    let named_frame_count = c.read_u32()?;
    let mut f: u32 = 0;
    while f < named_frame_count
        invariant
            c.data == old(c).data,
            d == old(c).data@,
            p0 == old(c).pos,
            c.data@ == d,
            c.inv(),
            p0 <= c.pos,
            f <= named_frame_count,
            v5_skip_timelines(d, p0) == v5_frames(
                d,
                c.pos as int,
                (named_frame_count - f) as nat,
            ),
        decreases named_frame_count - f,
    {
        let ghost fstart = c.pos as int;
        let _name = c.read_u16()?;
        let keyframe_count = c.read_u32()?;

        // Keyframe paths (sub_100cb2d0):
        // Each: u8(depth_and_flag), if depth>0: 2 bytes + (depth-1) bytes, if flag: u32
        let ghost q2 = c.pos as int;
        let mut k: u32 = 0;
        while k < keyframe_count
            invariant
                c.data == old(c).data,
                d == old(c).data@,
                p0 == old(c).pos,
                c.data@ == d,
                c.inv(),
                p0 <= fstart,
                fstart + 6 == q2,
                p0 <= q2 <= c.pos,
                f < named_frame_count,
                rd32(d, fstart + 2) == Ok::<(u32, int), PErr>((keyframe_count, q2)),
                rd16(d, fstart) is Ok,
                v5_skip_timelines(d, p0) == v5_frames(
                    d,
                    fstart,
                    (named_frame_count - f) as nat,
                ),
                k <= keyframe_count,
                v5_paths(d, q2, keyframe_count as nat) == v5_paths(
                    d,
                    c.pos as int,
                    (keyframe_count - k) as nat,
                ),
            decreases keyframe_count - k,
        {
            let first = c.read_u8()?;
            let depth = first & 0x7f;
            let has_value = first & 0x80 != 0;
            let mut size: u64 = 0;
            if depth > 0 {
                size = depth as u64 + 1;
            }
            if has_value {
                size = size + 4;
            }
            c.skip(size)?;
            k = k + 1;
        }

        // Subtimelines (sub_100cb558):
        // Each: u32 + 4*u8 (8 bytes fixed) + keyframe_count * 4 bytes (property values)
        let subtimeline_count = c.read_u32()?;
        let sub_size: u128 = 8 + (keyframe_count as u128) * 4;
        assert(subtimeline_count as u128 * sub_size <= 0xffff_ffff * (8 + 0xffff_ffff * 4))
            by (nonlinear_arith)
            requires
                subtimeline_count <= 0xffff_ffff,
                sub_size <= 8 + 0xffff_ffff * 4,
        ;
        let total: u128 = subtimeline_count as u128 * sub_size;
        if total > c.remaining() as u128 {
            return Err(c.fail());
        }
        c.skip(total as u64)?;
        f = f + 1;
    }
    Ok(())
}

/// Builds the message of a child's failure.
fn child_error(i: u32, count: u32, pos: usize, e: &ParseError, Ghost(s): Ghost<PErr>) -> (r:
    ParseError)
    requires
        error_is(*e, s),
    ensures
        error_is(r, v5_child_failure(i as nat, count as nat, pos as int, s)),
{
    let mut msg = String::new();
    push_str(&mut msg, "child ");
    push_dec(&mut msg, i as u64);
    push_str(&mut msg, "/");
    push_dec(&mut msg, count as u64);
    push_str(&mut msg, " @");
    push_dec(&mut msg, pos as u64);
    push_str(&mut msg, ": ");
    let ghost pre = msg@;
    assert(pre =~= "child "@ + dec(i as nat) + "/"@ + dec(count as nat) + " @"@ + dec(
        pos as nat,
    ) + ": "@);
    let inner = e.message();
    push_str(&mut msg, inner.as_str());
    assert(msg@ =~= pre + inner@);
    proof {
        match s {
            PErr::BadObjectText(m) => {
                assert(msg@ =~= pre + "bad object: "@ + m);
            },
            PErr::BadObjectPrefix(m) => {
                let x = choose|x: String| *e == ParseError::BadObject(x);
                assert(inner@ =~= "bad object: "@ + x@);
                let k = pre + "bad object: "@ + m;
                assert(k =~= msg@.subrange(0, k.len() as int));
            },
            PErr::Io => {
                let t = choose|t: Seq<char>| inner@ == "io: "@ + t;
                let k = pre + "io: "@;
                assert(k =~= msg@.subrange(0, k.len() as int));
            },
            _ => {},
        }
    }
    ParseError::BadObject(msg)
}

/// Parses the object at the cursor.
fn parse_object<'a>(c: &mut Cursor<'a>, full_data: &'a [u8], strings: &Vec<String>) -> (r: Result<
    Object<'a>,
    ParseError,
>)
    requires
        old(c).inv(),
        old(c).data == full_data,
    ensures
        final(c).data == old(c).data,
        final(c).inv(),
        match v5_object(full_data@, strings_view(strings@), old(c).pos as int) {
            Ok((o, p)) => r matches Ok(x) && object_view(x) == o && final(c).pos == p && old(c).pos
                < p,
            Err((e, q)) => r matches Err(x) && error_is(x, e) && final(c).pos == q,
        },
    decreases old(c).data@.len() - old(c).pos, 0int,
{
    reveal(v5_object);
    let ghost d = full_data@;
    let ghost strs = strings_view(strings@);
    let obj_start = c.pos;

    let class_name = c.read_u16()? as u32;
    if class_name == 0 {
        let mut msg = String::new();
        push_str(&mut msg, "null class name @");
        push_dec(&mut msg, obj_start as u64);
        return Err(ParseError::BadObject(msg));
    }

    let class_str: &str = if ((class_name - 1) as usize) < strings.len() {
        strings[(class_name - 1) as usize].as_str()
    } else {
        ""
    };
    assert(class_str@ == match string_at(strs, class_name) {
        Some(s) => s,
        None => Seq::<char>::empty(),
    }) by {
        if !(((class_name - 1) as usize) < strings.len()) {
            assert(""@.len() == 0) by {
                reveal_strlit("");
            }
            assert(""@ =~= Seq::<char>::empty());
        }
    }

    let flags = c.read_u8()?;
    let has_props = flags & object_flags::HAS_PROPERTIES != 0;
    let has_children = flags & object_flags::HAS_CHILDREN != 0;
    let has_timelines = flags & object_flags::HAS_TIMELINE != 0;

    let props_start = c.pos;
    let properties = if has_props {
        read_props(c, class_str)?
    } else {
        let v: Vec<PropertyGroup> = Vec::new();
        assert(groups_view(v@) =~= Seq::<SGroup>::empty());
        v
    };
    let props_end = c.pos;
    let raw_props = &full_data[props_start..props_end];

    let children: Vec<Object<'a>> = if has_children {
        // v5: child count is u32 BE
        let child_count = c.read_u32()?;
        parse_children(c, full_data, strings, child_count)?
    } else {
        let v: Vec<Object<'a>> = Vec::new();
        assert(objects_view(v@) =~= Seq::<SObject>::empty());
        v
    };

    if has_timelines {
        skip_timelines(c)?;
    }

    let obj = Object { class_name, properties, children, timelines: None, _raw_props: raw_props };
    proof {
        lemma_object_view(obj);
    }
    Ok(obj)
}

/// Parses `child_count` objects at the cursor.
fn parse_children<'a>(
    c: &mut Cursor<'a>,
    full_data: &'a [u8],
    strings: &Vec<String>,
    child_count: u32,
) -> (r: Result<Vec<Object<'a>>, ParseError>)
    requires
        old(c).inv(),
        old(c).data == full_data,
    ensures
        final(c).data == old(c).data,
        final(c).inv(),
        match v5_children(full_data@, strings_view(strings@), old(c).pos as int, 0, child_count as nat) {
            Ok((os, p)) => r matches Ok(x) && objects_view(x@) == os && final(c).pos == p && old(
                c,
            ).pos <= p,
            Err((e, q)) => r matches Err(x) && error_is(x, e) && final(c).pos == q,
        },
    decreases old(c).data@.len() - old(c).pos, 1int,
{
    let ghost d = full_data@;
    let ghost strs = strings_view(strings@);
    let ghost p0 = c.pos as int;
    let ghost whole = v5_children(d, strs, p0, 0, child_count as nat);
    let mut children: Vec<Object<'a>> = Vec::new();
    assert(whole == cat_at(objects_view(children@), whole)) by {
        if let Ok((s, q)) = whole {
            assert(objects_view(children@) + s =~= s);
        }
    }
    let mut i: u32 = 0;
    while i < child_count
        invariant
            c.data == old(c).data,
            c.data == full_data,
            d == old(c).data@,
            strs == strings_view(strings@),
            p0 == old(c).pos,
            c.data@ == d,
            c.inv(),
            p0 <= c.pos,
            i <= child_count,
            whole == v5_children(d, strs, p0, 0, child_count as nat),
            whole == cat_at(
                objects_view(children@),
                v5_children(d, strs, c.pos as int, i as nat, child_count as nat),
            ),
        decreases child_count - i,
    {
        let ghost before = children@;
        let ghost q0 = c.pos as int;
        match parse_object(c, full_data, strings) {
            Ok(child) => {
                children.push(child);
                proof {
                    assert(objects_view(children@) =~= objects_view(before).push(
                        object_view(child),
                    ));
                    let rest = v5_children(d, strs, c.pos as int, (i + 1) as nat, child_count as nat);
                    lemma_children_step(d, strs, q0, i as nat, child_count as nat, object_view(child), c.pos as int);
                    if let Ok((s, q)) = rest {
                        assert(objects_view(before) + (seq![object_view(child)] + s)
                            =~= objects_view(children@) + s);
                    }
                }
            },
            Err(e) => {
                let ghost f = v5_object(d, strs, q0);
                proof {
                    lemma_children_fail(d, strs, q0, i as nat, child_count as nat);
                }
                return Err(child_error(i, child_count, c.pos, &e, Ghost(f->Err_0.0)));
            },
        }
        i = i + 1;
    }
    proof {
        assert(objects_view(children@) + Seq::<SObject>::empty() =~= objects_view(children@));
    }
    Ok(children)
}

proof fn lemma_children_step(
    d: Seq<u8>,
    strs: Seq<Seq<char>>,
    p: int,
    i: nat,
    count: nat,
    o: SObject,
    q: int,
)
    requires
        v5_object(d, strs, p) == Ok::<(SObject, int), Failure>((o, q)),
        p < q <= d.len(),
        i < count,
    ensures
        v5_children(d, strs, p, i, count) == cat_at(seq![o], v5_children(d, strs, q, i + 1, count)),
{
    reveal(v5_object);
}

proof fn lemma_children_fail(d: Seq<u8>, strs: Seq<Seq<char>>, p: int, i: nat, count: nat)
    requires
        v5_object(d, strs, p) is Err,
        i < count,
    ensures
        v5_object(d, strs, p) matches Err((e, q)) && v5_children(d, strs, p, i, count) == Err::<
            (Seq<SObject>, int),
            Failure,
        >((v5_child_failure(i, count, q, e), q)),
{
    reveal(v5_object);
}

// ---------------------------------------------------------------------------
// File parsing
// ---------------------------------------------------------------------------

/// The v5 string table: consecutive u16 character counts, each followed by
/// that many UTF-16BE code units. A truncated record is `BadString` at the end
/// of the table.
pub open spec fn v5_strings(d: Seq<u8>, p: int) -> Result<Seq<Seq<char>>, PErr>
    decreases d.len() - p,
{
    if p < 0 || p >= d.len() {
        Ok(Seq::empty())
    } else if p + 2 > d.len() {
        Err(PErr::BadString(d.len() as int))
    } else {
        let n = be16_at(d, p) as int;
        let q = p + 2;
        if q + 2 * n > d.len() {
            Err(PErr::BadString(d.len() as int))
        } else {
            let s = Seq::new(n as nat, |j: int| unit_char(be16_at(d, q + 2 * j)));
            match v5_strings(d, q + 2 * n) {
                Ok(rest) => Ok(seq![s] + rest),
                Err(e) => Err(e),
            }
        }
    }
}

fn parse_string_table(data: &[u8]) -> (r: Result<Vec<String>, ParseError>)
    ensures
        match v5_strings(data@, 0) {
            Ok(ss) => r matches Ok(v) && strings_view(v@) == ss,
            Err(e) => r matches Err(x) && error_is(x, e),
        },
{
    let ghost d = data@;
    let ghost whole = v5_strings(d, 0);
    let mut strings: Vec<String> = Vec::new();
    let len = data.len();
    let mut pos: usize = 0;
    assert(whole == match v5_strings(d, 0) {
        Ok(rest) => Ok(strings_view(strings@) + rest),
        Err(e) => Err(e),
    }) by {
        if let Ok(rest) = whole {
            assert(strings_view(strings@) + rest =~= rest);
        }
    }
    while pos < len
        invariant
            len == d.len(),
            d == data@,
            pos <= len,
            whole == v5_strings(d, 0),
            whole == match v5_strings(d, pos as int) {
                Ok(rest) => Ok(strings_view(strings@) + rest),
                Err(e) => Err(e),
            },
        decreases len - pos,
    {
        if len - pos < 2 {
            return Err(ParseError::BadString { offset: len });
        }
        let char_count = u16_at(data, pos) as usize;
        let q = pos + 2;
        if len - q < 2 * char_count {
            return Err(ParseError::BadString { offset: len });
        }
        let mut s = String::new();
        let mut j: usize = 0;
        while j < char_count
            invariant
                len == d.len(),
                d == data@,
                j <= char_count,
                q + 2 * char_count <= len,
                s@ =~= Seq::new(j as nat, |k: int| unit_char(be16_at(d, q + 2 * k))),
            decreases char_count - j,
        {
            let cu = u16_at(data, q + 2 * j);
            push_char(&mut s, decode_unit(cu));
            j = j + 1;
        }
        let ghost before = strings@;
        let ghost sv = s@;
        strings.push(s);
        pos = q + 2 * char_count;
        proof {
            assert(strings_view(strings@) =~= strings_view(before).push(sv));
            if let Ok(rest) = v5_strings(d, pos as int) {
                assert(strings_view(before) + (seq![sv] + rest) =~= strings_view(strings@) + rest);
            }
        }
    }
    proof {
        assert(strings_view(strings@) + Seq::<Seq<char>>::empty() =~= strings_view(strings@));
    }
    Ok(strings)
}

/// The whole v5 file: header, section table, the STRN and DATA sections
/// (required), VECT and CUST (optional, checked), QUAT (optional, empty when
/// it does not lie within the file), the string table and the root object.
pub open spec fn v5_parse(data: Seq<u8>) -> Result<SXur, PErr> {
    let len = data.len() as int;
    if len < HEADER_SIZE {
        Err(PErr::TooShort { needed: HEADER_SIZE as int, available: len })
    } else {
        match spec_header(data) {
            Err(e) => Err(e),
            Ok(h) => {
                let count = h.section_count as int;
                let extra = if h.reserved != 0 {
                    40int
                } else {
                    0
                };
                let table = HEADER_SIZE + extra;
                let needed = table + count * 12;
                if len < needed {
                    Err(PErr::TooShort { needed, available: len })
                } else {
                    let secs = section_table(data, table, count as nat);
                    match spec_find_section(secs, section_tag::STRN@) {
                        None => Err(PErr::MissingSection("STRN"@)),
                        Some(strn) => match spec_find_section(secs, section_tag::DATA@) {
                            None => Err(PErr::MissingSection("DATA"@)),
                            Some(ds) => match spec_section_bytes(data, strn) {
                                Err(e) => Err(e),
                                Ok(sb) => match spec_section_bytes(data, ds) {
                                    Err(e) => Err(e),
                                    Ok(db) => match spec_opt_section_bytes(
                                        data,
                                        spec_find_section(secs, section_tag::VECT@),
                                    ) {
                                        Err(e) => Err(e),
                                        Ok(vb) => match spec_opt_section_bytes(
                                            data,
                                            spec_find_section(secs, section_tag::CUST@),
                                        ) {
                                            Err(e) => Err(e),
                                            Ok(cb) => match v5_strings(sb, 0) {
                                                Err(e) => Err(e),
                                                Ok(strs) => match v5_object(db, strs, 0) {
                                                    Err((e, _)) => Err(e),
                                                    Ok((root, _)) => Ok(
                                                        SXur {
                                                            header: h,
                                                            strings: strs,
                                                            vectors: vb,
                                                            quaternions: spec_section_or_empty(
                                                                data,
                                                                spec_find_section(
                                                                    secs,
                                                                    section_tag::QUAT@,
                                                                ),
                                                            ),
                                                            custom: cb,
                                                            root,
                                                        },
                                                    ),
                                                },
                                            },
                                        },
                                    },
                                },
                            },
                        },
                    }
                }
            },
        }
    }
}

pub open spec fn opt_view(s: Option<SectionHeader>) -> Option<SSection> {
    match s {
        Some(s) => Some(section_view(s)),
        None => None,
    }
}

/// Parses a XUIB v5 binary.
pub fn parse(data: &[u8]) -> (r: Result<Xur<'_>, ParseError>)
    requires
        usize::MAX == u64::MAX,
    ensures
        match v5_parse(data@) {
            Ok(x) => r matches Ok(xur) && xur@ == x,
            Err(e) => r matches Err(x) && error_is(x, e),
        },
{
    if data.len() < HEADER_SIZE {
        return Err(ParseError::TooShort { needed: HEADER_SIZE, available: data.len() });
    }

    let header = parse_header(data)?;
    let section_count = header.section_count as usize;

    // reserved=1 adds 10 u32 pre-computed values (40 bytes) before the section table
    let extra_header: usize = if header.reserved != 0 {
        40
    } else {
        0
    };
    let sect_table_offset = HEADER_SIZE + extra_header;
    let needed = sect_table_offset + section_count * SECTION_HEADER_SIZE;
    if data.len() < needed {
        return Err(ParseError::TooShort { needed, available: data.len() });
    }

    let sections = parse_section_headers(data, section_count, sect_table_offset);
    let ghost secs = sections_view(sections@);
    let strn = match find_section(&sections, section_tag::STRN) {
        Some(s) => s,
        None => {
            return Err(ParseError::MissingSection("STRN"));
        },
    };
    let data_sect = match find_section(&sections, section_tag::DATA) {
        Some(s) => s,
        None => {
            return Err(ParseError::MissingSection("DATA"));
        },
    };
    let vect = find_section(&sections, section_tag::VECT);
    let quat = find_section(&sections, section_tag::QUAT);
    let cust = find_section(&sections, section_tag::CUST);
    assert(opt_view(vect) == spec_find_section(secs, section_tag::VECT@));
    assert(opt_view(quat) == spec_find_section(secs, section_tag::QUAT@));
    assert(opt_view(cust) == spec_find_section(secs, section_tag::CUST@));

    let strn_data = section_bytes(data, &strn)?;
    let data_data = section_bytes(data, &data_sect)?;
    let vect_data = opt_section_bytes(data, vect)?;
    let cust_data = opt_section_bytes(data, cust)?;
    let quat_data: &[u8] = match section_get(data, quat) {
        Some(q) => q,
        None => &[],
    };
    assert(quat_data@ =~= spec_section_or_empty(data@, opt_view(quat)));

    let strings = parse_string_table(strn_data)?;
    let mut cursor = Cursor::new(data_data);
    let root = parse_object(&mut cursor, data_data, &strings)?;

    Ok(Xur { header, strings, vectors: vect_data, quaternions: quat_data, custom: cust_data, root })
}

} // verus!
