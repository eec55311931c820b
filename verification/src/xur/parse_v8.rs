//! XUIB v8 binary parser.
//!
//! Reverse-engineered from the xam.xex loader (`sub_817e0c10`, which calls
//! `sub_817e0970`, `sub_817dfc00`, and `sub_817df530`). v8 differs from v5 in
//! several fundamental ways:
//!
//! * Integers are varints (see [`Cursor::varint`]): a byte below `0xf0` is its
//!   own value; `0xf0..=0xfe` is a 12-bit value `((b & 0x0f) << 8) | next`;
//!   `0xff` introduces a big-endian `u32`.
//! * The property bitmask for each class level is itself a varint.
//! * Property values are stored once in typed pools (`FLOT`/`COLR`/`VECT`/
//!   `QUAT`/`CUST`) and referenced by varint index; the only inline scalar is
//!   `Bool` (one raw byte).
//! * `STRN` holds a `u32` byte length, a `u16` count, then NUL-terminated
//!   strings (v5 used length-prefixed UTF-16BE).
//! * Object header: `class` (varint, 1-based string index) + `flags` (one
//!   byte). `flags`: `0x01` properties, `0x02` children, `0x04` timeline,
//!   `0x08` id. Counts (value count, child count, id) are varints.
use std::collections::HashSet;

use vstd::prelude::*;

use super::bytes::be16_at;
use super::bytes::be32_at;
use super::bytes::u16_at;
use super::bytes::u32_at;
use super::error::error_is;
use super::error::PErr;
use super::error::ParseError;
use super::header::section_table;
use super::header::sections_view;
use super::header::section_view;
use super::header::SSection;
use super::header::HEADER_SIZE;
use super::header::SECTION_HEADER_SIZE;
use super::group_view;
use super::groups_view;
use super::lemma_group_view;
use super::lemma_object_value_view;
use super::value_view;
use super::values_view;
use super::keyframe_view;
use super::lemma_object_view;
use super::object_view;
use super::objects_view;
use super::path_view;
use super::string_at;
use super::strings_view;
use super::timeline_view;
use super::Keyframe;
use super::KeyframePath;
use super::NamedFrame;
use super::Object;
use super::SKeyframe;
use super::SObject;
use super::SPath;
use super::STimeline;
use super::STimelineData;
use super::SXur;
use super::Timeline;
use super::TimelineData;
use super::TimelineValue;
use super::Xur;
use super::object_flags;
use super::tables::get_hierarchy;
use super::tables::spec_hierarchy;
use super::tables::table_len;
use super::header::find_section;
use super::header::parse_header;
use super::header::section_get;
use super::header::spec_find_section;
use super::header::spec_header;
use super::header::spec_section_get;
use super::header::SHeader;
use super::PropType;
use super::PropertyGroup;
use super::PropertyValue;
use super::SGroup;
use super::SValue;
use super::tables::array_property;
use super::tables::compound_sub_types;
use super::tables::get_compound_sub_types;
use super::tables::is_array_property;
use super::tables::type_at;
use super::tables::type_of;
use super::tables::TypeTable;
use super::parse::bit_set;
use super::parse::prop_type_or_unsigned;
use super::SectionHeader;
use super::section_tag;
use crate::text::dec;
use crate::text::push_dec;
use crate::text::push_str;

verus! {

broadcast use vstd::std_specs::hash::group_hash_axioms;

// ---------------------------------------------------------------------------
// Cursor and varints
// ---------------------------------------------------------------------------

/// The error of a read past the end at `p`: a `BadObject` whose message is
/// `prefix` and the position.
#[verifier::opaque]
pub open spec fn eof_at(prefix: Seq<char>, p: int) -> PErr {
    PErr::BadObjectText(prefix + dec(p as nat))
}

/// One byte at `p`; running off the end is a `BadObject` (`eof @p`).
pub open spec fn b8(d: Seq<u8>, p: int) -> Result<(u8, int), PErr> {
    if 0 <= p < d.len() {
        Ok((d[p], p + 1))
    } else {
        Err(eof_at("eof @"@, p))
    }
}

/// A v8 varint at `p` (matches `sub_817df530`).
pub open spec fn varint(d: Seq<u8>, p: int) -> Result<(u32, int), PErr> {
    match b8(d, p) {
        Err(e) => Err(e),
        Ok((b, p1)) => if b < 0xf0 {
            Ok((b as u32, p1))
        } else if b < 0xff {
            match b8(d, p1) {
                Err(e) => Err(e),
                Ok((lo, p2)) => Ok(((((b & 0x0f) as u32) << 8u32) | (lo as u32), p2)),
            }
        } else if d.len() - p1 < 4 {
            Err(eof_at("eof u32 @"@, p1))
        } else {
            Ok((be32_at(d, p1), p1 + 4))
        },
    }
}

/// Where the cursor stands after a failed varint at `p`.
pub open spec fn varint_fail_pos(d: Seq<u8>, p: int) -> int {
    if 0 <= p < d.len() {
        p + 1
    } else {
        p
    }
}

/// A byte cursor over the DATA section that decodes v8 varints.
pub struct Cursor<'a> {
    pub data: &'a [u8],
    pub pos: usize,
    /// Compound dedup slots already materialized (see [`read_compound`]).
    pub seen_compounds: HashSet<u32>,
}

fn eof_message(prefix: &str, pos: usize) -> (e: ParseError)
    ensures
        error_is(e, eof_at(prefix@, pos as int)),
{
    reveal(eof_at);
    let mut msg = String::new();
    push_str(&mut msg, prefix);
    push_dec(&mut msg, pos as u64);
    ParseError::BadObject(msg)
}

impl<'a> Cursor<'a> {
    pub open spec fn inv(&self) -> bool {
        self.pos <= self.data@.len() <= usize::MAX
    }

    pub fn new(data: &'a [u8]) -> (c: Self)
        ensures
            c.data == data,
            c.pos == 0,
            c.inv(),
            c.seen_compounds@ == Set::<u32>::empty(),
    {
        let _n = data.len();
        Cursor { data, pos: 0, seen_compounds: HashSet::new() }
    }

    pub fn remaining(&self) -> (n: usize)
        requires
            self.inv(),
        ensures
            n == self.data@.len() - self.pos,
    {
        self.data.len() - self.pos
    }

    pub fn peek(&self) -> (r: Option<u8>)
        requires
            self.inv(),
        ensures
            r == (if self.pos < self.data@.len() {
                Some(self.data@[self.pos as int])
            } else {
                None
            }),
    {
        if self.pos < self.data.len() {
            Some(self.data[self.pos])
        } else {
            None
        }
    }

    pub fn byte(&mut self) -> (r: Result<u8, ParseError>)
        requires
            old(self).inv(),
        ensures
            final(self).data == old(self).data,
            final(self).seen_compounds == old(self).seen_compounds,
            final(self).inv(),
            match b8(old(self).data@, old(self).pos as int) {
                Ok((v, p)) => r matches Ok(x) && x == v && final(self).pos == p,
                Err(e) => r matches Err(x) && error_is(x, e) && final(self).pos == old(self).pos,
            },
    {
        if self.pos >= self.data.len() {
            return Err(eof_message("eof @", self.pos));
        }
        let b = self.data[self.pos];
        self.pos = self.pos + 1;
        Ok(b)
    }

    /// Reads a v8 varint (matches `sub_817df530`).
    pub fn varint(&mut self) -> (r: Result<u32, ParseError>)
        requires
            old(self).inv(),
        ensures
            final(self).data == old(self).data,
            final(self).seen_compounds == old(self).seen_compounds,
            final(self).inv(),
            match varint(old(self).data@, old(self).pos as int) {
                Ok((v, p)) => r matches Ok(x) && x == v && final(self).pos == p && old(self).pos
                    < p,
                Err(e) => r matches Err(x) && error_is(x, e) && final(self).pos == varint_fail_pos(
                    old(self).data@,
                    old(self).pos as int,
                ),
            },
    {
        let b = self.byte()?;
        if b < 0xf0 {
            Ok(b as u32)
        } else if b < 0xff {
            let lo = self.byte()?;
            Ok(((b & 0x0f) as u32) << 8u32 | (lo as u32))
        } else {
            if self.remaining() < 4 {
                return Err(eof_message("eof u32 @", self.pos));
            }
            let v = u32_at(self.data, self.pos);
            self.pos = self.pos + 4;
            Ok(v)
        }
    }
}

/// The two-byte varint form: a first byte `b` in `0xf0..=0xfe` carries the
/// high four bits of the value in its low nibble, the next byte the low eight
/// bits.
pub proof fn lemma_varint_two_bytes(d: Seq<u8>, p: int)
    requires
        0 <= p,
        p + 2 <= d.len(),
        0xf0 <= d[p] <= 0xfe,
    ensures
        varint(d, p) == Ok::<(u32, int), PErr>((((d[p] % 16) * 256 + d[p + 1]) as u32, p + 2)),
{
    let b = d[p];
    let lo = d[p + 1];
    assert((((b & 0x0f) as u32) << 8u32) | (lo as u32) == ((b % 16) * 256 + lo) as u32)
        by (bit_vector);
}

/// The one-byte and five-byte varint forms: a first byte below `0xf0` is the
/// value; a first byte `0xff` is followed by the value's four bytes, most
/// significant first.
pub proof fn lemma_varint_other_forms(d: Seq<u8>, p: int)
    requires
        0 <= p < d.len(),
    ensures
        d[p] < 0xf0 ==> varint(d, p) == Ok::<(u32, int), PErr>((d[p] as u32, p + 1)),
        d[p] == 0xff && p + 5 <= d.len() ==> varint(d, p) == Ok::<(u32, int), PErr>(
            ((d[p + 1] * 0x100_0000 + d[p + 2] * 0x1_0000 + d[p + 3] * 0x100 + d[p + 4]) as u32, p + 5),
        ),
{
}

/// Every value up to `0xeff` written in the two-byte form (`0xf0` plus its
/// high nibble, then its low byte) reads back as itself, and every value
/// below `0xf0` written as one byte reads back as itself. (A first byte `0xff`
/// announces the five-byte form, so `0xf00..=0xfff` have no two-byte form.)
pub proof fn lemma_varint_round_trip(d: Seq<u8>, p: int, v: u32)
    requires
        0 <= p,
        v <= 0xeff,
        v < 0xf0 ==> p + 1 <= d.len() && d[p] == v,
        v >= 0xf0 ==> p + 2 <= d.len() && d[p] == 0xf0 + v / 256 && d[p + 1] == v % 256,
    ensures
        varint(d, p) == Ok::<(u32, int), PErr>((v, if v < 0xf0 { p + 1 } else { p + 2 })),
{
    if v >= 0xf0 {
        assert(v / 256 <= 14) by (nonlinear_arith)
            requires
                v <= 0xeff,
        ;
        lemma_varint_two_bytes(d, p);
        let hi = d[p];
        let lo = d[p + 1];
        assert(((hi % 16) * 256 + lo) as u32 == v) by (nonlinear_arith)
            requires
                v <= 0xeff,
                hi == 0xf0 + v / 256,
                lo == v % 256,
        ;
    }
}

// ---------------------------------------------------------------------------
// Timeline tables
// ---------------------------------------------------------------------------

/// NAME section: a run of named frames, each `name` (varint) + `time` (varint)
/// + `command` (byte) + `from_name` (varint, only when `command >= 2`; 0 when
/// it is cut off). The run stops with fewer than 3 bytes left or at the first
/// incomplete record.
pub open spec fn named_frames_from(d: Seq<u8>, p: int) -> Seq<NamedFrame>
    decreases d.len() - p,
{
    if p < 0 || d.len() - p < 3 {
        Seq::empty()
    } else {
        match varint(d, p) {
            Err(_) => Seq::empty(),
            Ok((name, p1)) => match varint(d, p1) {
                Err(_) => Seq::empty(),
                Ok((time, p2)) => match b8(d, p2) {
                    Err(_) => Seq::empty(),
                    Ok((command, p3)) => {
                        let from = if command >= 2 {
                            match varint(d, p3) {
                                Ok((v, q)) => (v, q),
                                Err(_) => (0u32, varint_fail_pos(d, p3)),
                            }
                        } else {
                            (0u32, p3)
                        };
                        if from.1 <= p {
                            Seq::empty()
                        } else {
                            seq![NamedFrame { name, time, command, from_name: from.0 }]
                                + named_frames_from(d, from.1)
                        }
                    },
                },
            },
        }
    }
}

pub fn parse_named_frames(data: &[u8]) -> (r: Vec<NamedFrame>)
    ensures
        r@ == named_frames_from(data@, 0),
{
    let ghost d = data@;
    let mut c = Cursor::new(data);
    let mut out: Vec<NamedFrame> = Vec::new();
    assert(out@ + named_frames_from(d, 0) =~= named_frames_from(d, 0));
    while c.remaining() >= 3
        invariant_except_break
            out@ + named_frames_from(d, c.pos as int) == named_frames_from(d, 0),
        invariant
            c.data@ == d,
            c.inv(),
        ensures
            out@ == named_frames_from(d, 0),
        decreases d.len() - c.pos,
    {
        let ghost p = c.pos as int;
        let ghost before = out@;
        let name = match c.varint() {
            Ok(v) => v,
            Err(_) => {
                assert(before + Seq::<NamedFrame>::empty() =~= before);
                break;
            },
        };
        let time = match c.varint() {
            Ok(v) => v,
            Err(_) => {
                assert(before + Seq::<NamedFrame>::empty() =~= before);
                break;
            },
        };
        let command = match c.byte() {
            Ok(v) => v,
            Err(_) => {
                assert(before + Seq::<NamedFrame>::empty() =~= before);
                break;
            },
        };
        let from_name = if command >= 2 {
            match c.varint() {
                Ok(v) => v,
                Err(_) => 0,
            }
        } else {
            0
        };
        let nf = NamedFrame { name, time, command, from_name };
        out.push(nf);
        assert(before + named_frames_from(d, p) == before + (seq![nf] + named_frames_from(
            d,
            c.pos as int,
        )));
        assert(out@ + named_frames_from(d, c.pos as int) =~= before + (seq![nf]
            + named_frames_from(d, c.pos as int)));
    }
    out
}

/// A raw KEYD keyframe: a `frame` time, interpolation flags + ease, and a
/// `property_base` index into the flat KEYP property-index list where this
/// frame's per-property animated values begin.
#[derive(Clone, Copy)]
pub struct RawKeyframe {
    pub frame: u32,
    pub interpolation: u8,
    pub ease: [u8; 3],
    pub property_base: u32,
}

pub struct SRawKeyframe {
    pub frame: u32,
    pub interpolation: u8,
    pub ease: Seq<u8>,
    pub property_base: u32,
}

pub open spec fn raw_view(k: RawKeyframe) -> SRawKeyframe {
    SRawKeyframe {
        frame: k.frame,
        interpolation: k.interpolation,
        ease: k.ease@,
        property_base: k.property_base,
    }
}

pub open spec fn raws_view(ks: Seq<RawKeyframe>) -> Seq<SRawKeyframe> {
    Seq::new(ks.len(), |i: int| raw_view(ks[i]))
}

/// The interpolation data after a keyframe's flag byte: 3 ease bytes when the
/// flags are 2, a varint when 0xA, one byte when 0xB; the ease and the next
/// position, or `None` when it is cut off.
pub open spec fn ease_data(d: Seq<u8>, p: int, flags: u8) -> Option<(Seq<u8>, int)> {
    if flags == 2 {
        match b8(d, p) {
            Err(_) => None,
            Ok((a, q1)) => match b8(d, q1) {
                Err(_) => None,
                Ok((b, q2)) => match b8(d, q2) {
                    Err(_) => None,
                    Ok((e, q3)) => Some((seq![a, b, e], q3)),
                },
            },
        }
    } else if flags == 0xA {
        match varint(d, p) {
            Err(_) => None,
            Ok((_, q)) => Some((seq![0u8, 0u8, 0u8], q)),
        }
    } else if flags == 0xB {
        match b8(d, p) {
            Err(_) => None,
            Ok((_, q)) => Some((seq![0u8, 0u8, 0u8], q)),
        }
    } else {
        Some((seq![0u8, 0u8, 0u8], p))
    }
}

/// The XUI interpolation type of keyframe flags: 1=None, 2=Ease, everything
/// else (0, 3, and the rare 0xA/0xB) the default Linear.
pub open spec fn interpolation_of(flags: u8) -> u8 {
    if flags == 1 {
        1
    } else if flags == 2 {
        2
    } else {
        0
    }
}

/// KEYD section: a flat list of keyframes. Each is `frame` (varint) + a flag
/// byte (low 6 bits are interpolation flags; high 2 bits unused) + optional
/// interpolation data + `property_base` (varint, offset into the flat KEYP
/// property-index list). The list stops with fewer than 2 bytes left or at the
/// first incomplete record.
pub open spec fn keyframes_from(d: Seq<u8>, p: int) -> Seq<SRawKeyframe>
    decreases d.len() - p,
{
    if p < 0 || d.len() - p < 2 {
        Seq::empty()
    } else {
        match varint(d, p) {
            Err(_) => Seq::empty(),
            Ok((frame, p1)) => match b8(d, p1) {
                Err(_) => Seq::empty(),
                Ok((flag, p2)) => {
                    let flags = flag & 0x3f;
                    match ease_data(d, p2, flags) {
                        None => Seq::empty(),
                        Some((ease, p3)) => match varint(d, p3) {
                            Err(_) => Seq::empty(),
                            Ok((base, p4)) => if p4 <= p {
                                Seq::empty()
                            } else {
                                seq![
                                    SRawKeyframe {
                                        frame,
                                        interpolation: interpolation_of(flags),
                                        ease,
                                        property_base: base,
                                    },
                                ] + keyframes_from(d, p4)
                            },
                        },
                    }
                },
            },
        }
    }
}

fn read_ease(c: &mut Cursor, flags: u8) -> (r: Option<[u8; 3]>)
    requires
        old(c).inv(),
    ensures
        final(c).data == old(c).data,
        final(c).seen_compounds == old(c).seen_compounds,
        final(c).inv(),
        match ease_data(old(c).data@, old(c).pos as int, flags) {
            Some((e, q)) => r matches Some(x) && x@ == e && final(c).pos == q,
            None => r is None,
        },
{
    let mut ease = [0u8; 3];
    assert(ease@ =~= seq![0u8, 0u8, 0u8]);
    match flags {
        2 => {
            let (ra, rb, rd) = (c.byte(), c.byte(), c.byte());
            let (a, b, d) = match (ra, rb, rd) {
                (Ok(a), Ok(b), Ok(d)) => (a, b, d),
                _ => {
                    return None;
                },
            };
            ease = [a, b, d];
            assert(ease@ =~= seq![a, b, d]);
        },
        0xA => {
            if c.varint().is_err() {
                return None;
            }
        },
        0xB => {
            if c.byte().is_err() {
                return None;
            }
        },
        _ => {},
    }
    Some(ease)
}

pub fn parse_keyframes(data: &[u8]) -> (r: Vec<RawKeyframe>)
    ensures
        raws_view(r@) == keyframes_from(data@, 0),
{
    let ghost d = data@;
    let mut c = Cursor::new(data);
    let mut out: Vec<RawKeyframe> = Vec::new();
    assert(raws_view(out@) + keyframes_from(d, 0) =~= keyframes_from(d, 0));
    while c.remaining() >= 2
        invariant_except_break
            raws_view(out@) + keyframes_from(d, c.pos as int) == keyframes_from(d, 0),
        invariant
            c.data@ == d,
            c.inv(),
        ensures
            raws_view(out@) == keyframes_from(d, 0),
        decreases d.len() - c.pos,
    {
        let ghost p = c.pos as int;
        let ghost before = raws_view(out@);
        assert(before + Seq::<SRawKeyframe>::empty() =~= before);
        let frame = match c.varint() {
            Ok(v) => v,
            Err(_) => {
                break;
            },
        };
        let flag = match c.byte() {
            Ok(v) => v,
            Err(_) => {
                break;
            },
        };
        let flags = flag & 0x3f;
        let ease = match read_ease(&mut c, flags) {
            Some(e) => e,
            None => {
                break;
            },
        };
        let property_base = match c.varint() {
            Ok(v) => v,
            Err(_) => {
                break;
            },
        };
        // Map interpolation flags to XUI types: 1=None, 2=Ease, everything else
        // (0, 3, and the rare 0xA/0xB) renders as the default Linear.
        let interpolation: u8 = match flags {
            1 => 1,
            2 => 2,
            _ => 0,
        };
        let k = RawKeyframe { frame, interpolation, ease, property_base };
        out.push(k);
        assert(raws_view(out@) =~= before.push(raw_view(k)));
        assert(raws_view(out@) + keyframes_from(d, c.pos as int) =~= before + (seq![raw_view(k)]
            + keyframes_from(d, c.pos as int)));
    }
    out
}

/// KEYP section: a flat list of varint property-value indexes, up to the first
/// incomplete one.
pub open spec fn keyp_from(d: Seq<u8>, p: int) -> Seq<u32>
    decreases d.len() - p,
{
    if p < 0 || d.len() - p < 1 {
        Seq::empty()
    } else {
        match varint(d, p) {
            Err(_) => Seq::empty(),
            Ok((v, q)) => if q <= p {
                Seq::empty()
            } else {
                seq![v] + keyp_from(d, q)
            },
        }
    }
}

pub fn parse_keyp(data: &[u8]) -> (r: Vec<u32>)
    ensures
        r@ == keyp_from(data@, 0),
{
    let ghost d = data@;
    let mut c = Cursor::new(data);
    let mut out: Vec<u32> = Vec::new();
    assert(out@ + keyp_from(d, 0) =~= keyp_from(d, 0));
    while c.remaining() >= 1
        invariant_except_break
            out@ + keyp_from(d, c.pos as int) == keyp_from(d, 0),
        invariant
            c.data@ == d,
            c.inv(),
        ensures
            out@ == keyp_from(d, 0),
        decreases d.len() - c.pos,
    {
        let ghost before = out@;
        assert(before + Seq::<u32>::empty() =~= before);
        match c.varint() {
            Ok(v) => {
                out.push(v);
                assert(out@ + keyp_from(d, c.pos as int) =~= before + (seq![v] + keyp_from(
                    d,
                    c.pos as int,
                )));
            },
            Err(_) => {
                break;
            },
        }
    }
    out
}

// ---------------------------------------------------------------------------
// Sections and strings
// ---------------------------------------------------------------------------

/// The first `t` in `[t, limit)` where a section table of `count` records can
/// start: an `STRN` record whose offset is where the table ends.
pub open spec fn table_start_from(d: Seq<u8>, count: int, t: int, limit: int) -> Option<int>
    decreases limit - t,
{
    if t >= limit {
        None
    } else if t + 12 <= d.len() && d.subrange(t, t + 4) == section_tag::STRN@ && be32_at(d, t + 4)
        == t + count * 12 {
        Some(t)
    } else {
        table_start_from(d, count, t + 1, limit)
    }
}

/// The section table, located generically: `STRN` is always section 0 and its
/// data immediately follows the table, so the table starts where the first
/// record's offset equals `table_start + count * 12`.
pub open spec fn v8_sections(d: Seq<u8>, count: int) -> Result<Seq<SSection>, PErr> {
    let limit = if HEADER_SIZE + 64 < d.len() {
        HEADER_SIZE + 64
    } else {
        d.len() as int
    };
    match table_start_from(d, count, HEADER_SIZE as int, limit) {
        None => Err(PErr::MissingSection("STRN"@)),
        Some(t) => {
            let end = t + count * 12;
            if end > d.len() {
                Err(PErr::TooShort { needed: end, available: d.len() as int })
            } else {
                Ok(section_table(d, t, count as nat))
            }
        },
    }
}

fn locate_sections(data: &[u8], count: usize) -> (r: Result<Vec<SectionHeader>, ParseError>)
    requires
        count <= 0xffff,
    ensures
        match v8_sections(data@, count as int) {
            Ok(secs) => r matches Ok(v) && sections_view(v@) == secs,
            Err(e) => r matches Err(x) && error_is(x, e),
        },
{
    let len = data.len();
    let limit = if HEADER_SIZE + 64 < len {
        HEADER_SIZE + 64
    } else {
        len
    };
    let mut t = HEADER_SIZE;
    let mut found: Option<usize> = None;
    while t < limit
        invariant_except_break
            found is None,
            table_start_from(data@, count as int, HEADER_SIZE as int, limit as int)
                == table_start_from(data@, count as int, t as int, limit as int),
        invariant
            len == data@.len(),
            limit <= len,
            limit <= HEADER_SIZE + 64,
            count <= 0xffff,
            HEADER_SIZE <= t,
        ensures
            found matches Some(x) ==> x < HEADER_SIZE + 64,
            match found {
                Some(x) => table_start_from(data@, count as int, HEADER_SIZE as int, limit as int)
                    == Some(x as int),
                None => table_start_from(data@, count as int, HEADER_SIZE as int, limit as int)
                    is None,
            },
        decreases limit - t,
    {
        if len - t >= SECTION_HEADER_SIZE {
            let is_strn = data[t] == section_tag::STRN[0] && data[t + 1] == section_tag::STRN[1]
                && data[t + 2] == section_tag::STRN[2] && data[t + 3] == section_tag::STRN[3];
            proof {
                if is_strn {
                    assert(data@.subrange(t as int, t + 4) =~= section_tag::STRN@);
                } else if data@.subrange(t as int, t + 4) == section_tag::STRN@ {
                    assert(data@.subrange(t as int, t + 4)[0] == data@[t as int]);
                    assert(data@.subrange(t as int, t + 4)[1] == data@[t + 1]);
                    assert(data@.subrange(t as int, t + 4)[2] == data@[t + 2]);
                    assert(data@.subrange(t as int, t + 4)[3] == data@[t + 3]);
                }
            }
            if is_strn {
                let off = u32_at(data, t + 4) as u64;
                if off == t as u64 + (count as u64) * 12 {
                    found = Some(t);
                    break;
                }
            }
        }
        t = t + 1;
    }
    let table_start = match found {
        Some(x) => x,
        None => {
            return Err(ParseError::MissingSection("STRN"));
        },
    };
    let end = table_start + count * SECTION_HEADER_SIZE;
    if end > len {
        return Err(ParseError::TooShort { needed: end, available: len });
    }
    Ok(super::header::parse_section_headers(data, count, table_start))
}

/// The text that `String::from_utf8_lossy` makes of `bytes`.
pub uninterp spec fn utf8_lossy(bytes: Seq<u8>) -> Seq<char>;

/// `String::from_utf8_lossy(..).into_owned()`: the bytes decoded as UTF-8, each
/// invalid sequence replaced by U+FFFD. Only that valid UTF-8 decodes as such
/// is stated; the replacement rules are not.
#[verifier::external_body]
fn from_utf8_lossy(bytes: &[u8]) -> (s: String)
    ensures
        s@ == utf8_lossy(bytes@),
        vstd::utf8::valid_utf8(bytes@) ==> s@ == vstd::utf8::decode_utf8(bytes@),
{
    String::from_utf8_lossy(bytes).into_owned()
}

/// The text of one string of the table: valid UTF-8 decodes as such; other
/// bytes give what `String::from_utf8_lossy` makes of them.
pub open spec fn string_text(bytes: Seq<u8>) -> Seq<char> {
    if vstd::utf8::valid_utf8(bytes) {
        vstd::utf8::decode_utf8(bytes)
    } else {
        utf8_lossy(bytes)
    }
}

/// The NUL-terminated strings of `body` from `i` on, the current one starting
/// at `start`; `k` strings were taken before; at most `count` in all (no limit
/// when `count` is 0).
pub open spec fn strs_scan(body: Seq<u8>, count: nat, k: nat, start: int, i: int) -> Seq<Seq<char>>
    decreases body.len() - i,
{
    if i < 0 || i >= body.len() {
        Seq::empty()
    } else if body[i] == 0 {
        let s = string_text(body.subrange(start, i));
        if k + 1 == count {
            seq![s]
        } else {
            seq![s] + strs_scan(body, count, k + 1, i + 1, i + 1)
        }
    } else {
        strs_scan(body, count, k, start, i + 1)
    }
}

/// v8 string table: `u32` byte length, `u16` count, then NUL-terminated
/// strings.
pub open spec fn v8_strings(d: Seq<u8>) -> Seq<Seq<char>> {
    if d.len() < 6 {
        Seq::empty()
    } else {
        strs_scan(d.subrange(6, d.len() as int), be16_at(d, 4) as nat, 0, 0, 0)
    }
}

fn parse_string_table(data: &[u8]) -> (r: Vec<String>)
    ensures
        super::strings_view(r@) == v8_strings(data@),
{
    let mut strings: Vec<String> = Vec::new();
    if data.len() < 6 {
        assert(super::strings_view(strings@) =~= Seq::<Seq<char>>::empty());
        return strings;
    }
    let count = u16_at(data, 4) as usize;
    let body = &data[6..data.len()];
    let ghost b = body@;
    let mut start: usize = 0;
    let mut i: usize = 0;
    assert(super::strings_view(strings@) + strs_scan(b, count as nat, 0, 0, 0) =~= strs_scan(
        b,
        count as nat,
        0,
        0,
        0,
    ));
    while i < body.len()
        invariant_except_break
            start <= i,
            super::strings_view(strings@) + strs_scan(
                b,
                count as nat,
                strings@.len() as nat,
                start as int,
                i as int,
            ) == strs_scan(b, count as nat, 0, 0, 0),
        invariant
            b == body@,
            i <= body@.len(),
        ensures
            super::strings_view(strings@) == strs_scan(b, count as nat, 0, 0, 0),
        decreases body@.len() - i,
    {
        if body[i] == 0 {
            let ghost before = super::strings_view(strings@);
            let ghost k = strings@.len() as nat;
            let s = from_utf8_lossy(&body[start..i]);
            let ghost sv = s@;
            assert(sv == string_text(b.subrange(start as int, i as int)));
            strings.push(s);
            assert(super::strings_view(strings@) =~= before.push(sv));
            start = i + 1;
            if strings.len() == count {
                assert(super::strings_view(strings@) =~= before + seq![sv]);
                break;
            }
            assert(super::strings_view(strings@) + strs_scan(
                b,
                count as nat,
                (k + 1) as nat,
                start as int,
                (i + 1) as int,
            ) =~= before + (seq![sv] + strs_scan(
                b,
                count as nat,
                (k + 1) as nat,
                start as int,
                (i + 1) as int,
            )));
        }
        i = i + 1;
    }
    proof {
        assert(super::strings_view(strings@) + Seq::<Seq<char>>::empty() =~= super::strings_view(
            strings@,
        ));
    }
    strings
}

// ---------------------------------------------------------------------------
// Value pools
// ---------------------------------------------------------------------------

/// Typed value pools referenced from DATA by index.
pub struct Pools<'a> {
    pub flot: &'a [u8],
    pub colr: &'a [u8],
}

pub struct SPools {
    pub flot: Seq<u8>,
    pub colr: Seq<u8>,
}

pub open spec fn pools_view(p: Pools) -> SPools {
    SPools { flot: p.flot@, colr: p.colr@ }
}

/// The big-endian word at `index` of a pool of 4-byte entries; 0 past its end.
pub open spec fn pool_word(pool: Seq<u8>, index: u32) -> u32 {
    if index as int * 4 + 4 <= pool.len() {
        be32_at(pool, index as int * 4)
    } else {
        0
    }
}

fn read_pool_word(pool: &[u8], index: u32) -> (r: u32)
    ensures
        r == pool_word(pool@, index),
{
    let off = index as u64 * 4;
    if off + 4 > pool.len() as u64 {
        0
    } else {
        u32_at(pool, off as usize)
    }
}

impl<'a> Pools<'a> {
    /// The bit pattern of the `f32` at `index` of FLOT; 0 (the pattern of
    /// `0.0`) past its end.
    pub fn float(&self, index: u32) -> (r: u32)
        ensures
            r == pool_word(self.flot@, index),
    {
        read_pool_word(self.flot, index)
    }

    /// The color at `index` of COLR; 0 past its end.
    pub fn color(&self, index: u32) -> (r: u32)
        ensures
            r == pool_word(self.colr@, index),
    {
        read_pool_word(self.colr, index)
    }
}

/// The number of set bits in `v`.
pub open spec fn popcount(v: u32) -> nat
    decreases v,
{
    if v == 0 {
        0
    } else {
        (v % 2) as nat + popcount(v / 2)
    }
}

/// The number of set bits of `v`.
fn count_ones(v: u32) -> (r: u32)
    ensures
        r == popcount(v),
{
    proof {
        assert(two_to(32) == 0x1_0000_0000) by {
            reveal_with_fuel(two_to, 33);
        }
        lemma_popcount_bound(v, 32);
    }
    let mut rest = v;
    let mut n: u32 = 0;
    while rest != 0
        invariant
            n + popcount(rest) == popcount(v),
            popcount(v) <= 32,
        decreases rest,
    {
        n = n + rest % 2;
        rest = rest / 2;
    }
    n
}

/// `2^k`.
pub open spec fn two_to(k: nat) -> int
    decreases k,
{
    if k == 0 {
        1
    } else {
        2 * two_to((k - 1) as nat)
    }
}

/// A number below `2^k` has at most `k` set bits.
proof fn lemma_popcount_bound(v: u32, k: nat)
    requires
        v < two_to(k),
    ensures
        popcount(v) <= k,
    decreases k,
{
    if v != 0 {
        if k > 0 {
            lemma_popcount_bound(v / 2, (k - 1) as nat);
        }
    }
}

// ---------------------------------------------------------------------------
// Property levels
// ---------------------------------------------------------------------------

pub open spec fn cat3<T>(pre: Seq<T>, r: Result<(Seq<T>, int, Set<u32>), PErr>) -> Result<
    (Seq<T>, int, Set<u32>),
    PErr,
> {
    match r {
        Ok((s, q, seen)) => Ok((pre + s, q, seen)),
        Err(e) => Err(e),
    }
}

/// A single typed value at `p`: a raw byte for `Bool`, a varint otherwise
/// (resolved against FLOT or COLR for floats and colors).
pub open spec fn v8_value(
    d: Seq<u8>,
    p: int,
    seen: Set<u32>,
    ty: PropType,
    parent: TypeTable,
    bit: u32,
    pools: SPools,
) -> Result<(SValue, int, Set<u32>), PErr>
    decreases d.len() - p, 2int, 0int,
{
    match ty {
        PropType::Bool => match b8(d, p) {
            Ok((b, q)) => Ok((SValue::Bool(b != 0), q, seen)),
            Err(e) => Err(e),
        },
        PropType::Compound => v8_compound(d, p, seen, parent, bit, pools),
        _ => match varint(d, p) {
            Err(e) => Err(e),
            Ok((v, q)) => Ok(
                (
                    match ty {
                        PropType::Float => SValue::Float(pool_word(pools.flot, v)),
                        PropType::String => SValue::String(v),
                        PropType::Color => SValue::Color(pool_word(pools.colr, v)),
                        PropType::Vector3 => SValue::Vector(v),
                        PropType::Quaternion => SValue::Quaternion(v),
                        PropType::Custom => SValue::Custom(v),
                        _ => SValue::Unsigned(v),
                    },
                    q,
                    seen,
                ),
            ),
        },
    }
}

/// Compound (type 9): varint dedup slot, varint value count, then a nested
/// level. A slot seen before is a shared reference with no inline body.
pub open spec fn v8_compound(
    d: Seq<u8>,
    p: int,
    seen: Set<u32>,
    parent: TypeTable,
    bit: u32,
    pools: SPools,
) -> Result<(SValue, int, Set<u32>), PErr>
    decreases d.len() - p, 1int, 0int,
{
    match varint(d, p) {
        Err(e) => Err(e),
        Ok((slot, p1)) => if seen.contains(slot) {
            Ok((SValue::Object(Seq::empty()), p1, seen))
        } else {
            match varint(d, p1) {
                Err(e) => Err(e),
                Ok((_, p2)) => {
                    let sub = match compound_sub_types(parent, bit) {
                        Some(t) => t,
                        None => TypeTable::Empty,
                    };
                    match v8_level(d, p2, seen.insert(slot), sub, 0, pools) {
                        Err(e) => Err(e),
                        Ok((g, _, p3, s3)) => Ok(
                            (
                                SValue::Object(
                                    match g {
                                        Some(g) => seq![g],
                                        None => Seq::empty(),
                                    },
                                ),
                                p3,
                                s3,
                            ),
                        ),
                    }
                },
            }
        },
    }
}

/// A v8 value is of the kind its property type holds. An index or number
/// type (integer, unsigned, string, vector, quaternion, custom) carries the
/// varint at `p`; a float or color carries the FLOT or COLR word that the
/// varint selects; a flag is the byte at `p` being non-zero.
pub proof fn lemma_v8_value_has_type(
    d: Seq<u8>,
    p: int,
    seen: Set<u32>,
    ty: PropType,
    parent: TypeTable,
    bit: u32,
    pools: SPools,
)
    ensures
        v8_value(d, p, seen, ty, parent, bit, pools) matches Ok((v, q, _)) ==> {
            &&& super::value_has_type(ty, v)
            &&& (ty == PropType::Bool ==> q == p + 1 && v == SValue::Bool(d[p] != 0))
            &&& (ty == PropType::Integer || ty == PropType::Unsigned || ty == PropType::String || ty
                == PropType::Vector3 || ty == PropType::Quaternion || ty == PropType::Custom ==> varint(
                d,
                p,
            ) == Ok::<(u32, int), PErr>((super::value_word(v), q)))
            &&& (ty == PropType::Float ==> (varint(d, p) matches Ok((i, q2)) && q == q2
                && super::value_word(v) == pool_word(pools.flot, i)))
            &&& (ty == PropType::Color ==> (varint(d, p) matches Ok((i, q2)) && q == q2
                && super::value_word(v) == pool_word(pools.colr, i)))
        },
{
    if ty == PropType::Compound {
        match varint(d, p) {
            Err(_) => {},
            Ok((slot, p1)) => if !seen.contains(slot) {
                match varint(d, p1) {
                    Err(_) => {},
                    Ok((_, p2)) => {},
                }
            },
        }
    }
}

/// `n` values of one array property.
pub open spec fn v8_array(
    d: Seq<u8>,
    p: int,
    seen: Set<u32>,
    n: nat,
    ty: PropType,
    types: TypeTable,
    bit: u32,
    pools: SPools,
) -> Result<(Seq<SValue>, int, Set<u32>), PErr>
    decreases d.len() - p, 3int, n,
{
    if n == 0 {
        Ok((Seq::empty(), p, seen))
    } else {
        match v8_value(d, p, seen, ty, types, bit, pools) {
            Err(e) => Err(e),
            Ok((v, q, s1)) => if q <= p || q > d.len() {
                Err(PErr::BadObject)
            } else {
                cat3(seq![v], v8_array(d, q, s1, (n - 1) as nat, ty, types, bit, pools))
            },
        }
    }
}

/// The values for the bits of `bm` from `bit` on, typed by `types`; an array
/// property has a varint count first.
pub open spec fn v8_values(
    d: Seq<u8>,
    p: int,
    seen: Set<u32>,
    bm: u32,
    types: TypeTable,
    bit: u32,
    pools: SPools,
) -> Result<(Seq<SValue>, int, Set<u32>), PErr>
    decreases d.len() - p, 4int, 32 - bit,
{
    if bit >= 32 {
        Ok((Seq::empty(), p, seen))
    } else if !bit_set(bm, bit) {
        v8_values(d, p, seen, bm, types, (bit + 1) as u32, pools)
    } else {
        let ty = prop_type_or_unsigned(types, bit);
        if array_property(types, bit) {
            match varint(d, p) {
                Err(e) => Err(e),
                Ok((count, p1)) => if p1 <= p || p1 > d.len() {
                    Err(PErr::BadObject)
                } else {
                    match v8_array(d, p1, seen, count as nat, ty, types, bit, pools) {
                        Err(e) => Err(e),
                        Ok((vs, p2, s2)) => if p2 < p1 || p2 > d.len() {
                            Err(PErr::BadObject)
                        } else {
                            cat3(vs, v8_values(d, p2, s2, bm, types, (bit + 1) as u32, pools))
                        },
                    }
                },
            }
        } else {
            match v8_value(d, p, seen, ty, types, bit, pools) {
                Err(e) => Err(e),
                Ok((v, q, s1)) => if q <= p || q > d.len() {
                    Err(PErr::BadObject)
                } else {
                    cat3(seq![v], v8_values(d, q, s1, bm, types, (bit + 1) as u32, pools))
                },
            }
        }
    }
}

/// One class level: a varint bitmask, then a value per set bit. Gives the
/// property group (none for an empty bitmask) and the number of set bits.
pub open spec fn v8_level(
    d: Seq<u8>,
    p: int,
    seen: Set<u32>,
    types: TypeTable,
    level: int,
    pools: SPools,
) -> Result<(Option<SGroup>, nat, int, Set<u32>), PErr>
    decreases d.len() - p, 5int, 0int,
{
    match varint(d, p) {
        Err(e) => Err(e),
        Ok((bm, p1)) => if bm == 0 {
            Ok((None, 0, p1, seen))
        } else if p1 <= p || p1 > d.len() {
            Err(PErr::BadObject)
        } else {
            match v8_values(d, p1, seen, bm, types, 0, pools) {
                Err(e) => Err(e),
                Ok((vals, p2, s2)) => Ok(
                    (Some(SGroup { bitmask: bm, values: vals, level }), popcount(bm), p2, s2),
                ),
            }
        },
    }
}

/// Reads the values for the set bits of `bitmask`, typed by `types` (see
/// `v8_values`).
#[verifier::rlimit(60)]
#[verifier::spinoff_prover]
fn read_values(c: &mut Cursor, bitmask: u32, types: TypeTable, pools: &Pools) -> (r: Result<
    Vec<PropertyValue>,
    ParseError,
>)
    requires
        old(c).inv(),
    ensures
        final(c).data == old(c).data,
        final(c).inv(),
        match v8_values(
            old(c).data@,
            old(c).pos as int,
            old(c).seen_compounds@,
            bitmask,
            types,
            0,
            pools_view(*pools),
        ) {
            Ok((vs, p, s)) => r matches Ok(x) && values_view(x@) == vs && final(c).pos == p
                && final(c).seen_compounds@ == s && old(c).pos <= p,
            Err(e) => r matches Err(x) && error_is(x, e),
        },
    decreases old(c).data@.len() - old(c).pos, 4int, 0int,
{
    let ghost d = c.data@;
    let ghost p0 = c.pos as int;
    assert(old(c).pos == p0);
    let ghost s0 = c.seen_compounds@;
    let ghost pv = pools_view(*pools);
    let mut values: Vec<PropertyValue> = Vec::new();
    let mut bit: u32 = 0;
    assert(v8_values(d, p0, s0, bitmask, types, 0, pv) == cat3(
        values_view(values@),
        v8_values(d, p0, s0, bitmask, types, 0, pv),
    )) by {
        if let Ok((s, q, t)) = v8_values(d, p0, s0, bitmask, types, 0, pv) {
            assert(values_view(values@) + s =~= s);
        }
    }
    while bit < 32
        invariant
            c.data == old(c).data,
            d == old(c).data@,
            old(c).pos == p0,
            old(c).seen_compounds@ == s0,
            c.data@ == d,
            c.inv(),
            p0 <= c.pos,
            bit <= 32,
            pv == pools_view(*pools),
            v8_values(d, p0, s0, bitmask, types, 0, pv) == cat3(
                values_view(values@),
                v8_values(d, c.pos as int, c.seen_compounds@, bitmask, types, bit, pv),
            ),
        decreases 32 - bit,
    {
        if bitmask & (1u32 << bit) == 0 {
            bit = bit + 1;
            continue;
        }
        let ty = match type_at(types, bit) {
            Some(t) => t,
            None => PropType::Unsigned,
        };
        let ghost p = c.pos as int;
        let ghost sp = c.seen_compounds@;
        let ghost pre = values_view(values@);
        if is_array_property(types, bit) {
            let count = c.varint()?;
            let ghost p1 = c.pos as int;
            let ghost s1 = c.seen_compounds@;
            let mut arr = read_array(c, count, ty, types, bit, pools)?;
            let ghost av = values_view(arr@);
            let ghost before = values@;
            values.append(&mut arr);
            proof {
                assert(values_view(values@) =~= pre + av);
                let rest = v8_values(
                    d,
                    c.pos as int,
                    c.seen_compounds@,
                    bitmask,
                    types,
                    (bit + 1) as u32,
                    pv,
                );
                if let Ok((s, q, t)) = rest {
                    assert(pre + (av + s) =~= (pre + av) + s);
                }
            }
        } else {
            let ghost before = values@;
            let v = read_value(c, ty, types, bit, pools)?;
            values.push(v);
            proof {
                assert(values_view(values@) =~= values_view(before).push(value_view(v)));
                let rest = v8_values(
                    d,
                    c.pos as int,
                    c.seen_compounds@,
                    bitmask,
                    types,
                    (bit + 1) as u32,
                    pv,
                );
                if let Ok((s, q, t)) = rest {
                    assert(values_view(before) + (seq![value_view(v)] + s) =~= values_view(
                        values@,
                    ) + s);
                }
            }
        }
        bit = bit + 1;
    }
    proof {
        assert(values_view(values@) + Seq::<SValue>::empty() =~= values_view(values@));
    }
    proof {
        assert(values_view(values@) + Seq::<SValue>::empty() =~= values_view(values@));
    }
    Ok(values)
}

/// Reads one class level: a varint bitmask, then a value per set bit. Returns
/// the group (none for an empty bitmask) and the number of properties read.
fn read_level(c: &mut Cursor, types: TypeTable, level: usize, pools: &Pools) -> (r: Result<
    (Option<PropertyGroup>, u32),
    ParseError,
>)
    requires
        old(c).inv(),
    ensures
        final(c).data == old(c).data,
        final(c).inv(),
        match v8_level(
            old(c).data@,
            old(c).pos as int,
            old(c).seen_compounds@,
            types,
            level as int,
            pools_view(*pools),
        ) {
            Ok((g, n, p, s)) => r matches Ok((x, k)) && k == n && final(c).pos == p
                && final(c).seen_compounds@ == s && old(c).pos < p && match g {
                Some(g) => x matches Some(xg) && group_view(xg) == g,
                None => x is None,
            },
            Err(e) => r matches Err(x) && error_is(x, e),
        },
    decreases old(c).data@.len() - old(c).pos, 5int, 0int,
{
    let bitmask = c.varint()?;
    if bitmask == 0 {
        return Ok((None, 0));
    }
    let values = read_values(c, bitmask, types, pools)?;
    let group = PropertyGroup { bitmask, values, level };
    proof {
        lemma_group_view(group);
    }
    Ok((Some(group), count_ones(bitmask)))
}

/// Reads the `count` values of one array property (see `v8_array`).
#[verifier::rlimit(60)]
fn read_array(
    c: &mut Cursor,
    count: u32,
    ty: PropType,
    types: TypeTable,
    bit: u32,
    pools: &Pools,
) -> (r: Result<Vec<PropertyValue>, ParseError>)
    requires
        old(c).inv(),
    ensures
        final(c).data == old(c).data,
        final(c).inv(),
        match v8_array(
            old(c).data@,
            old(c).pos as int,
            old(c).seen_compounds@,
            count as nat,
            ty,
            types,
            bit,
            pools_view(*pools),
        ) {
            Ok((vs, p, s)) => r matches Ok(x) && values_view(x@) == vs && final(c).pos == p
                && final(c).seen_compounds@ == s && old(c).pos <= p,
            Err(e) => r matches Err(x) && error_is(x, e),
        },
    decreases old(c).data@.len() - old(c).pos, 3int, 0int,
{
    let ghost d = c.data@;
    let ghost pv = pools_view(*pools);
    let ghost whole = v8_array(d, c.pos as int, c.seen_compounds@, count as nat, ty, types, bit, pv);
    let mut values: Vec<PropertyValue> = Vec::new();
    assert(whole == cat3(values_view(values@), whole)) by {
        if let Ok((s, q, t)) = whole {
            assert(values_view(values@) + s =~= s);
        }
    }
    let mut k: u32 = 0;
    while k < count
        invariant
            c.data == old(c).data,
            d == old(c).data@,
            c.data@ == d,
            c.inv(),
            old(c).pos <= c.pos,
            k <= count,
            pv == pools_view(*pools),
            whole == v8_array(
                d,
                old(c).pos as int,
                old(c).seen_compounds@,
                count as nat,
                ty,
                types,
                bit,
                pv,
            ),
            whole == cat3(
                values_view(values@),
                v8_array(d, c.pos as int, c.seen_compounds@, (count - k) as nat, ty, types, bit, pv),
            ),
        decreases count - k,
    {
        let ghost before = values@;
        let v = read_value(c, ty, types, bit, pools)?;
        values.push(v);
        proof {
            assert(values_view(values@) =~= values_view(before).push(value_view(v)));
            let rest = v8_array(
                d,
                c.pos as int,
                c.seen_compounds@,
                (count - k - 1) as nat,
                ty,
                types,
                bit,
                pv,
            );
            if let Ok((s, q, t)) = rest {
                assert(values_view(before) + (seq![value_view(v)] + s) =~= values_view(values@)
                    + s);
            }
        }
        k = k + 1;
    }
    proof {
        assert(values_view(values@) + Seq::<SValue>::empty() =~= values_view(values@));
    }
    Ok(values)
}

fn read_value(c: &mut Cursor, ty: PropType, parent_types: TypeTable, bit: u32, pools: &Pools) -> (r:
    Result<PropertyValue, ParseError>)
    requires
        old(c).inv(),
    ensures
        final(c).data == old(c).data,
        final(c).inv(),
        match v8_value(
            old(c).data@,
            old(c).pos as int,
            old(c).seen_compounds@,
            ty,
            parent_types,
            bit,
            pools_view(*pools),
        ) {
            Ok((v, p, s)) => r matches Ok(x) && value_view(x) == v && final(c).pos == p
                && final(c).seen_compounds@ == s && old(c).pos < p,
            Err(e) => r matches Err(x) && error_is(x, e),
        },
    decreases old(c).data@.len() - old(c).pos, 2int, 0int,
{
    let v = match ty {
        PropType::Bool => PropertyValue::Bool(c.byte()? != 0),
        PropType::Integer | PropType::Unsigned => PropertyValue::Unsigned(c.varint()?),
        PropType::Float => PropertyValue::Float(pools.float(c.varint()?)),
        PropType::String => PropertyValue::String(c.varint()?),
        PropType::Color => PropertyValue::Color(pools.color(c.varint()?)),
        PropType::Vector3 => PropertyValue::Vector(c.varint()?),
        PropType::Quaternion => PropertyValue::Quaternion(c.varint()?),
        PropType::Custom => PropertyValue::Custom(c.varint()?),
        PropType::Compound => read_compound(c, parent_types, bit, pools)?,
    };
    Ok(v)
}

/// Compound (type 9): varint dedup slot, varint value count, then a nested
/// level (its own varint bitmask + values). On a fresh load the slot is unseen,
/// so the body is always present inline.
fn read_compound(c: &mut Cursor, parent_types: TypeTable, bit: u32, pools: &Pools) -> (r: Result<
    PropertyValue,
    ParseError,
>)
    requires
        old(c).inv(),
    ensures
        final(c).data == old(c).data,
        final(c).inv(),
        match v8_compound(
            old(c).data@,
            old(c).pos as int,
            old(c).seen_compounds@,
            parent_types,
            bit,
            pools_view(*pools),
        ) {
            Ok((v, p, s)) => r matches Ok(x) && value_view(x) == v && final(c).pos == p
                && final(c).seen_compounds@ == s && old(c).pos < p,
            Err(e) => r matches Err(x) && error_is(x, e),
        },
    decreases old(c).data@.len() - old(c).pos, 1int, 0int,
{
    let slot = c.varint()?;
    // A slot seen before is a shared reference with no inline body; the loader
    // reuses the previously materialized compound instead of reading.
    if !c.seen_compounds.insert(slot) {
        let empty: Vec<PropertyGroup> = Vec::new();
        proof {
            lemma_object_value_view(empty);
            assert(groups_view(empty@) =~= Seq::<SGroup>::empty());
        }
        return Ok(PropertyValue::Object(empty));
    }
    let _count = c.varint()?;
    let sub_types = match get_compound_sub_types(parent_types, bit) {
        Some(t) => t,
        None => TypeTable::Empty,
    };
    let mut group: Vec<PropertyGroup> = Vec::new();
    let (g, _n) = read_level(c, sub_types, 0, pools)?;
    match g {
        Some(g) => {
            let ghost gv = group_view(g);
            group.push(g);
            proof {
                assert(groups_view(group@) =~= seq![gv]);
            }
        },
        None => {
            proof {
                assert(groups_view(group@) =~= Seq::<SGroup>::empty());
            }
        },
    }
    proof {
        lemma_object_value_view(group);
    }
    Ok(PropertyValue::Object(group))
}

// ---------------------------------------------------------------------------
// Timelines
// ---------------------------------------------------------------------------

/// Shared timeline tables. KEYD holds the keyframes; KEYP is a flat list of
/// per-keyframe animated property value indexes.
pub struct TimelineTables {
    pub named_frames: Vec<NamedFrame>,
    pub keyframes: Vec<RawKeyframe>,
    pub keyp: Vec<u32>,
}

pub struct STables {
    pub named_frames: Seq<NamedFrame>,
    pub keyframes: Seq<SRawKeyframe>,
    pub keyp: Seq<u32>,
}

pub open spec fn tables_view(t: TimelineTables) -> STables {
    STables {
        named_frames: t.named_frames@,
        keyframes: raws_view(t.keyframes@),
        keyp: t.keyp@,
    }
}

/// The class name with 1-based index `index`, or the empty string.
pub open spec fn class_of(strs: Seq<Seq<char>>, index: u32) -> Seq<char> {
    match string_at(strs, index) {
        Some(s) => s,
        None => Seq::empty(),
    }
}

fn class_name<'s>(strings: &'s Vec<String>, index: u32) -> (r: &'s str)
    ensures
        r@ == class_of(strings_view(strings@), index),
{
    if index >= 1 && ((index - 1) as usize) < strings.len() {
        strings[(index - 1) as usize].as_str()
    } else {
        let e = "";
        proof {
            reveal_strlit("");
            assert(e@ =~= Seq::<char>::empty());
        }
        e
    }
}

/// The property type that a path at `hier_level` / `prop_idx` addresses in
/// the target's class: hier_level 0 is the leaf class; past the derived levels
/// it is XuiElement.
pub open spec fn path_prop_type(class: Seq<char>, hier_level: u8, prop_idx: u8) -> Option<PropType> {
    let h = spec_hierarchy(class);
    if hier_level as int >= h.len() {
        type_of(TypeTable::XuiElement, prop_idx as int)
    } else {
        type_of(h[h.len() - 1 - hier_level as int], prop_idx as int)
    }
}

/// Resolves a path's property type from the target child's class hierarchy,
/// mirroring the writer's name resolution (hier_level 0 = leaf class).
pub fn timeline_prop_type(class: &str, hier_level: u8, prop_idx: u8) -> (r: Option<PropType>)
    ensures
        r == path_prop_type(class@, hier_level, prop_idx),
{
    let hierarchy = get_hierarchy(class);
    let hl = hier_level as usize;
    let idx = prop_idx as u32;
    if hl >= hierarchy.len() {
        type_at(TypeTable::XuiElement, idx)
    } else {
        type_at(hierarchy[hierarchy.len() - 1 - hl], idx)
    }
}

/// A keyframe value resolved against the animated property's type.
pub open spec fn timeline_value(prop_type: Option<PropType>, value: u32, pools: SPools) -> TimelineValue {
    match prop_type {
        Some(PropType::Bool) => TimelineValue::Bool(value != 0),
        Some(PropType::Float) => TimelineValue::Float(pool_word(pools.flot, value)),
        Some(PropType::String) => TimelineValue::String(value),
        Some(PropType::Color) => TimelineValue::Color(pool_word(pools.colr, value)),
        Some(PropType::Vector3) => TimelineValue::Vector(value),
        Some(PropType::Quaternion) => TimelineValue::Quaternion(value),
        _ => TimelineValue::Unsigned(value),
    }
}

pub fn type_timeline_value(prop_type: Option<PropType>, value: u32, pools: &Pools) -> (r:
    TimelineValue)
    ensures
        r == timeline_value(prop_type, value, pools_view(*pools)),
{
    match prop_type {
        Some(PropType::Bool) => TimelineValue::Bool(value != 0),
        Some(PropType::Float) => TimelineValue::Float(pools.float(value)),
        Some(PropType::String) => TimelineValue::String(value),
        Some(PropType::Color) => TimelineValue::Color(pools.color(value)),
        Some(PropType::Vector3) => TimelineValue::Vector(value),
        Some(PropType::Quaternion) => TimelineValue::Quaternion(value),
        _ => TimelineValue::Unsigned(value),
    }
}

/// The KEYP entry at `idx`, 0 past the end.
pub open spec fn keyp_get(keyp: Seq<u32>, idx: int) -> u32 {
    if 0 <= idx < keyp.len() {
        keyp[idx]
    } else {
        0
    }
}

/// A keyframe built from a KEYD record: one value per path, the `p`-th taken
/// from KEYP at `property_base + p`.
pub open spec fn make_keyframe(raw: SRawKeyframe, paths: Seq<SPath>, keyp: Seq<u32>, pools: SPools) -> SKeyframe {
    SKeyframe {
        time: raw.frame,
        interpolation: raw.interpolation,
        ease: raw.ease,
        values: Seq::new(
            paths.len(),
            |p: int| timeline_value(paths[p].prop_type, keyp_get(keyp, raw.property_base + p), pools),
        ),
    }
}

/// The keyframes of a timeline: the KEYD records `start..start + count` that
/// exist.
pub open spec fn built_keyframes(
    tables: STables,
    start: int,
    count: int,
    paths: Seq<SPath>,
    pools: SPools,
) -> Seq<SKeyframe> {
    let len = tables.keyframes.len() as int;
    let n = if start >= len {
        0
    } else if count < len - start {
        count
    } else {
        len - start
    };
    Seq::new(
        n as nat,
        |k: int| make_keyframe(tables.keyframes[start + k], paths, tables.keyp, pools),
    )
}

pub open spec fn paths_view(ps: Seq<KeyframePath>) -> Seq<SPath> {
    Seq::new(ps.len(), |i: int| path_view(ps[i]))
}

pub open spec fn keyframes_view(ks: Seq<Keyframe>) -> Seq<SKeyframe> {
    Seq::new(ks.len(), |i: int| keyframe_view(ks[i]))
}

/// Builds a timeline's keyframes. The timeline references `count` KEYD
/// keyframes starting at `start`; each keyframe's `property_base` points into
/// the flat KEYP list where this frame's value index for each path begins (one
/// per path, in path order), resolved against each path's property type.
fn build_keyframes(
    tables: &TimelineTables,
    start: usize,
    count: usize,
    paths: &Vec<KeyframePath>,
    pools: &Pools,
) -> (r: Vec<Keyframe>)
    requires
        start <= u32::MAX,
        count <= u32::MAX,
    ensures
        keyframes_view(r@) == built_keyframes(
            tables_view(*tables),
            start as int,
            count as int,
            paths_view(paths@),
            pools_view(*pools),
        ),
{
    let ghost tv = tables_view(*tables);
    let ghost pv = paths_view(paths@);
    let ghost pl = pools_view(*pools);
    let mut keyframes: Vec<Keyframe> = Vec::new();
    let mut k: usize = 0;
    while k < count
        invariant
            start <= u32::MAX,
            count <= u32::MAX,
            k <= count,
            tv == tables_view(*tables),
            pv == paths_view(paths@),
            pl == pools_view(*pools),
            keyframes_view(keyframes@) == built_keyframes(tv, start as int, k as int, pv, pl),
        decreases count - k,
    {
        let ghost before = keyframes@;
        if start as u64 + k as u64 >= tables.keyframes.len() as u64 {
            assert(built_keyframes(tv, start as int, (k + 1) as int, pv, pl) =~= built_keyframes(
                tv,
                start as int,
                k as int,
                pv,
                pl,
            ));
            k = k + 1;
            continue;
        }
        let raw = tables.keyframes[start + k];
        let base = raw.property_base as usize;
        let mut values: Vec<TimelineValue> = Vec::new();
        let mut p: usize = 0;
        while p < paths.len()
            invariant
                p <= paths@.len(),
                pv == paths_view(paths@),
                pl == pools_view(*pools),
                tv == tables_view(*tables),
                base == raw.property_base,
                base <= u32::MAX,
                values@ =~= Seq::new(
                    p as nat,
                    |j: int| timeline_value(pv[j].prop_type, keyp_get(tv.keyp, raw.property_base + j), pl),
                ),
            decreases paths@.len() - p,
        {
            let index = if (base as u128) + (p as u128) < tables.keyp.len() as u128 {
                tables.keyp[base + p]
            } else {
                0
            };
            let v = type_timeline_value(paths[p].prop_type, index, pools);
            values.push(v);
            p = p + 1;
        }
        let kf = Keyframe {
            time: raw.frame,
            interpolation: raw.interpolation,
            ease: raw.ease,
            values,
        };
        keyframes.push(kf);
        proof {
            assert(raw_view(raw) == tv.keyframes[start + k]);
            assert(keyframe_view(kf) == make_keyframe(tv.keyframes[start + k], pv, tv.keyp, pl));
            assert(keyframes_view(keyframes@) =~= keyframes_view(before).push(keyframe_view(kf)));
            assert(keyframes_view(keyframes@) =~= built_keyframes(
                tv,
                start as int,
                (k + 1) as int,
                pv,
                pl,
            ));
        }
        k = k + 1;
    }
    keyframes
}

/// The first property group of the XuiElement level whose bitmask has bit 0
/// (Id) set.
pub open spec fn first_id_group(gs: Seq<SGroup>, i: int) -> Option<int>
    decreases gs.len() - i,
{
    if i < 0 || i >= gs.len() {
        None
    } else if gs[i].level == 0 && gs[i].bitmask & 1 != 0 {
        Some(i)
    } else {
        first_id_group(gs, i + 1)
    }
}

/// The Id string index of an object (XuiElement bit 0 of its level-0 group).
pub open spec fn spec_child_id(o: SObject) -> Option<u32> {
    match first_id_group(o.properties, 0) {
        None => None,
        Some(i) => if o.properties[i].values.len() > 0 {
            match o.properties[i].values[0] {
                SValue::String(x) => Some(x),
                _ => None,
            }
        } else {
            None
        },
    }
}

/// The first child whose Id is `target`.
pub open spec fn first_child_with_id(cs: Seq<SObject>, target: u32, i: int) -> Option<int>
    decreases cs.len() - i,
{
    if i < 0 || i >= cs.len() {
        None
    } else if spec_child_id(cs[i]) == Some(target) {
        Some(i)
    } else {
        first_child_with_id(cs, target, i + 1)
    }
}

/// The class of the direct child whose Id has string index `target`.
pub open spec fn spec_find_child_class(cs: Seq<SObject>, strs: Seq<Seq<char>>, target: u32) -> Option<
    Seq<char>,
> {
    if target == 0 {
        None
    } else {
        match first_child_with_id(cs, target, 0) {
            Some(i) => Some(class_of(strs, cs[i].class_name)),
            None => None,
        }
    }
}

/// The Id string index of an object (XuiElement bit 0 of its level-0 group).
fn child_id_index(obj: &Object) -> (r: Option<u32>)
    ensures
        r == spec_child_id(object_view(*obj)),
{
    let ghost gs = object_view(*obj).properties;
    let mut i: usize = 0;
    while i < obj.properties.len()
        invariant
            i <= obj.properties@.len(),
            gs == groups_view(obj.properties@),
            first_id_group(gs, 0) == first_id_group(gs, i as int),
        decreases obj.properties@.len() - i,
    {
        let g = &obj.properties[i];
        proof {
            lemma_group_view(*g);
        }
        if g.level == 0 && g.bitmask & 1 != 0 {
            if g.values.len() == 0 {
                return None;
            }
            return match &g.values[0] {
                PropertyValue::String(idx) => Some(*idx),
                _ => None,
            };
        }
        i = i + 1;
    }
    None
}

/// Finds a direct child by its Id (1-based string index) and returns its class.
fn find_child_class(children: &Vec<Object>, strings: &Vec<String>, target_name: u32) -> (r: Option<
    String,
>)
    ensures
        super::opt_string_view(r) == spec_find_child_class(
            objects_view(children@),
            strings_view(strings@),
            target_name,
        ),
{
    if target_name == 0 {
        return None;
    }
    let ghost cs = objects_view(children@);
    let mut i: usize = 0;
    while i < children.len()
        invariant
            target_name != 0,
            i <= children@.len(),
            cs == objects_view(children@),
            first_child_with_id(cs, target_name, 0) == first_child_with_id(cs, target_name, i as int),
        decreases children@.len() - i,
    {
        let child = &children[i];
        assert(cs[i as int] == object_view(*child));
        if child_id_index(child) == Some(target_name) {
            let name = class_name(strings, child.class_name);
            return Some(name.to_owned());
        }
        i = i + 1;
    }
    None
}

/// A keyframe path: a `depth|flag` byte; if `depth > 0`, `hier_level`,
/// `prop_idx` and `depth - 1` more index bytes; if the high bit is set, a
/// varint default value.
pub open spec fn v8_path(d: Seq<u8>, p: int, target_class: Seq<char>) -> Result<(SPath, int), PErr> {
    match b8(d, p) {
        Err(e) => Err(e),
        Ok((desc, p1)) => {
            let depth = desc & 0x7f;
            let hdr: Result<(u8, u8, Seq<u8>, int), PErr> = if depth > 0 {
                match b8(d, p1) {
                    Err(e) => Err(e),
                    Ok((hl, p2)) => match b8(d, p2) {
                        Err(e) => Err(e),
                        Ok((pi, p3)) => if p3 + (depth - 1) <= d.len() {
                            Ok((hl, pi, d.subrange(p3, p3 + depth - 1), p3 + depth - 1))
                        } else {
                            Err(eof_at("eof @"@, d.len() as int))
                        },
                    },
                }
            } else {
                Ok((0u8, 0u8, Seq::empty(), p1))
            };
            match hdr {
                Err(e) => Err(e),
                Ok((hl, pi, extra, p4)) => {
                    let dv: Result<(Option<u32>, int), PErr> = if desc & 0x80 != 0 {
                        match varint(d, p4) {
                            Err(e) => Err(e),
                            Ok((v, q)) => Ok((Some(v), q)),
                        }
                    } else {
                        Ok((None, p4))
                    };
                    match dv {
                        Err(e) => Err(e),
                        Ok((def, p5)) => Ok(
                            (
                                SPath {
                                    hier_level: hl,
                                    prop_idx: pi,
                                    prop_type: path_prop_type(target_class, hl, pi),
                                    prop_name: Seq::empty(),
                                    depth,
                                    extra_bytes: extra,
                                    default_value: def,
                                },
                                p5,
                            ),
                        ),
                    }
                },
            }
        },
    }
}

pub open spec fn cat2<T>(pre: Seq<T>, r: Result<(Seq<T>, int), PErr>) -> Result<(Seq<T>, int), PErr> {
    match r {
        Ok((s, q)) => Ok((pre + s, q)),
        Err(e) => Err(e),
    }
}

/// `n` keyframe paths.
pub open spec fn v8_paths(d: Seq<u8>, p: int, target_class: Seq<char>, n: nat) -> Result<
    (Seq<SPath>, int),
    PErr,
>
    decreases n,
{
    if n == 0 {
        Ok((Seq::empty(), p))
    } else {
        match v8_path(d, p, target_class) {
            Err(e) => Err(e),
            Ok((path, q)) => cat2(seq![path], v8_paths(d, q, target_class, (n - 1) as nat)),
        }
    }
}

/// One animated timeline: `target` (varint) + `path_count` (varint) + the
/// paths + `keyframe_count` (varint) + `keyframe_start` (varint, into KEYD).
pub open spec fn v8_one_timeline(
    d: Seq<u8>,
    p: int,
    children: Seq<SObject>,
    strs: Seq<Seq<char>>,
    pools: SPools,
    tables: STables,
) -> Result<(STimeline, int), PErr> {
    match varint(d, p) {
        Err(e) => Err(e),
        Ok((target, p1)) => {
            let tc = spec_find_child_class(children, strs, target);
            let tcs = match tc {
                Some(s) => s,
                None => Seq::empty(),
            };
            match varint(d, p1) {
                Err(e) => Err(e),
                Ok((pc, p2)) => match v8_paths(d, p2, tcs, pc as nat) {
                    Err(e) => Err(e),
                    Ok((paths, p3)) => match varint(d, p3) {
                        Err(e) => Err(e),
                        Ok((kc, p4)) => match varint(d, p4) {
                            Err(e) => Err(e),
                            Ok((ks, p5)) => Ok(
                                (
                                    STimeline {
                                        target_name: target,
                                        target_class: tc,
                                        paths,
                                        keyframes: built_keyframes(
                                            tables,
                                            ks as int,
                                            kc as int,
                                            paths,
                                            pools,
                                        ),
                                    },
                                    p5,
                                ),
                            ),
                        },
                    },
                },
            }
        },
    }
}

/// `n` animated timelines.
pub open spec fn v8_timelines(
    d: Seq<u8>,
    p: int,
    children: Seq<SObject>,
    strs: Seq<Seq<char>>,
    pools: SPools,
    tables: STables,
    n: nat,
) -> Result<(Seq<STimeline>, int), PErr>
    decreases n,
{
    if n == 0 {
        Ok((Seq::empty(), p))
    } else {
        match v8_one_timeline(d, p, children, strs, pools, tables) {
            Err(e) => Err(e),
            Ok((t, q)) => cat2(seq![t], v8_timelines(d, q, children, strs, pools, tables, (n - 1) as nat)),
        }
    }
}

/// The named frames `start..start + count` of NAME, or none when they are not
/// all there.
pub open spec fn named_frame_run(tables: STables, start: int, count: int) -> Seq<NamedFrame> {
    if start + count <= tables.named_frames.len() {
        tables.named_frames.subrange(start, start + count)
    } else {
        Seq::empty()
    }
}

/// An object's inline timeline block (`sub_817e0288`): `named_frame_count`
/// (varint); if non-zero, `named_frame_start` (varint, into NAME). Then, if
/// the object has children: `timeline_count` (varint) and the timelines.
pub open spec fn v8_timeline(
    d: Seq<u8>,
    p: int,
    has_children: bool,
    children: Seq<SObject>,
    strs: Seq<Seq<char>>,
    pools: SPools,
    tables: STables,
) -> Result<(Option<STimelineData>, int), PErr> {
    match varint(d, p) {
        Err(e) => Err(e),
        Ok((nfc, p1)) => {
            let st: Result<(int, int), PErr> = if nfc > 0 {
                match varint(d, p1) {
                    Err(e) => Err(e),
                    Ok((s, q)) => Ok((s as int, q)),
                }
            } else {
                Ok((0, p1))
            };
            match st {
                Err(e) => Err(e),
                Ok((start, p2)) => {
                    let nf = named_frame_run(tables, start, nfc as int);
                    if !has_children {
                        Ok(
                            (
                                if nf.len() > 0 {
                                    Some(STimelineData { named_frames: nf, timelines: Seq::empty() })
                                } else {
                                    None
                                },
                                p2,
                            ),
                        )
                    } else {
                        match varint(d, p2) {
                            Err(e) => Err(e),
                            Ok((tc, p3)) => match v8_timelines(
                                d,
                                p3,
                                children,
                                strs,
                                pools,
                                tables,
                                tc as nat,
                            ) {
                                Err(e) => Err(e),
                                Ok((tls, p4)) => Ok(
                                    (Some(STimelineData { named_frames: nf, timelines: tls }), p4),
                                ),
                            },
                        }
                    }
                },
            }
        },
    }
}

fn read_path(c: &mut Cursor, target_class: &str) -> (r: Result<KeyframePath, ParseError>)
    requires
        old(c).inv(),
    ensures
        final(c).data == old(c).data,
        final(c).seen_compounds == old(c).seen_compounds,
        final(c).inv(),
        match v8_path(old(c).data@, old(c).pos as int, target_class@) {
            Ok((path, p)) => r matches Ok(x) && path_view(x) == path && final(c).pos == p
                && old(c).pos <= p,
            Err(e) => r matches Err(x) && error_is(x, e),
        },
{
    let ghost d = c.data@;
    let descriptor = c.byte()?;
    let depth = descriptor & 0x7f;
    let mut hier_level = 0u8;
    let mut prop_idx = 0u8;
    let mut extra_bytes: Vec<u8> = Vec::new();
    if depth > 0 {
        hier_level = c.byte()?;
        prop_idx = c.byte()?;
        let ghost p3 = c.pos as int;
        let mut k: u8 = 1;
        while k < depth
            invariant
                c.data == old(c).data,
                c.seen_compounds == old(c).seen_compounds,
                c.data@ == d,
                c.inv(),
                1 <= k <= depth,
                0 <= p3,
                c.pos == p3 + k - 1,
                extra_bytes@ == d.subrange(p3, p3 + k - 1),
                depth == descriptor & 0x7f,
                b8(d, old(c).pos as int) == Ok::<(u8, int), PErr>((descriptor, old(c).pos + 1)),
                b8(d, old(c).pos + 1) == Ok::<(u8, int), PErr>((hier_level, old(c).pos + 2)),
                b8(d, old(c).pos + 2) == Ok::<(u8, int), PErr>((prop_idx, p3)),
            decreases depth - k,
        {
            let b = c.byte()?;
            extra_bytes.push(b);
            assert(extra_bytes@ =~= d.subrange(p3, p3 + k));
            k = k + 1;
        }
    } else {
        assert(extra_bytes@ =~= Seq::<u8>::empty());
    }
    let default_value = if descriptor & 0x80 != 0 {
        Some(c.varint()?)
    } else {
        None
    };
    let prop_type = timeline_prop_type(target_class, hier_level, prop_idx);
    let prop_name = String::new();
    Ok(
        KeyframePath {
            hier_level,
            prop_idx,
            prop_type,
            prop_name,
            depth,
            extra_bytes,
            default_value,
        },
    )
}

pub open spec fn timelines_view(ts: Seq<Timeline>) -> Seq<STimeline> {
    Seq::new(ts.len(), |i: int| timeline_view(ts[i]))
}

/// Parses an object's inline timeline block (`sub_817e0288`) into structured
/// timeline data. The keyframe values live in the KEYD pool (referenced by
/// index) and named frames in NAME; only the refs and keyframe paths are
/// inline.
#[verifier::rlimit(40)]
fn parse_timeline(
    c: &mut Cursor,
    has_children: bool,
    children: &Vec<Object>,
    strings: &Vec<String>,
    pools: &Pools,
    tables: &TimelineTables,
) -> (r: Result<Option<TimelineData>, ParseError>)
    requires
        old(c).inv(),
    ensures
        final(c).data == old(c).data,
        final(c).seen_compounds == old(c).seen_compounds,
        final(c).inv(),
        match v8_timeline(
            old(c).data@,
            old(c).pos as int,
            has_children,
            objects_view(children@),
            strings_view(strings@),
            pools_view(*pools),
            tables_view(*tables),
        ) {
            Ok((t, p)) => r matches Ok(x) && super::opt_timeline_data_view(x) == t && final(c).pos
                == p && old(c).pos <= p,
            Err(e) => r matches Err(x) && error_is(x, e),
        },
{
    let ghost d = c.data@;
    let ghost cs = objects_view(children@);
    let ghost strs = strings_view(strings@);
    let ghost pv = pools_view(*pools);
    let ghost tv = tables_view(*tables);
    let named_frame_count = c.varint()?;
    let named_frame_start = if named_frame_count > 0 {
        c.varint()? as usize
    } else {
        0
    };
    let nf_end = named_frame_start as u64 + named_frame_count as u64;
    let named_frames: Vec<NamedFrame> = if nf_end <= tables.named_frames.len() as u64 {
        let all = tables.named_frames.as_slice();
        vstd::slice::slice_to_vec(&all[named_frame_start..nf_end as usize])
    } else {
        Vec::new()
    };
    assert(named_frames@ =~= named_frame_run(tv, named_frame_start as int, named_frame_count as int));

    if !has_children {
        if named_frames.len() > 0 {
            let t = TimelineData { named_frames, timelines: Vec::new() };
            assert(timelines_view(t.timelines@) =~= Seq::<STimeline>::empty());
            assert(super::timeline_data_view(t).timelines =~= Seq::<STimeline>::empty());
            return Ok(Some(t));
        } else {
            return Ok(None);
        }
    }

    let timeline_count = c.varint()?;
    let ghost p3 = c.pos as int;
    let mut timelines: Vec<Timeline> = Vec::new();
    let ghost whole = v8_timelines(d, p3, cs, strs, pv, tv, timeline_count as nat);
    assert(whole == cat2(timelines_view(timelines@), whole)) by {
        if let Ok((s, q)) = whole {
            assert(timelines_view(timelines@) + s =~= s);
        }
    }
    let mut i: u32 = 0;
    while i < timeline_count
        invariant
            c.data == old(c).data,
            c.seen_compounds == old(c).seen_compounds,
            c.data@ == d,
            c.inv(),
            old(c).pos <= p3 <= c.pos,
            i <= timeline_count,
            cs == objects_view(children@),
            strs == strings_view(strings@),
            pv == pools_view(*pools),
            tv == tables_view(*tables),
            whole == v8_timelines(d, p3, cs, strs, pv, tv, timeline_count as nat),
            whole == cat2(
                timelines_view(timelines@),
                v8_timelines(d, c.pos as int, cs, strs, pv, tv, (timeline_count - i) as nat),
            ),
            v8_timeline(d, old(c).pos as int, true, cs, strs, pv, tv) == match whole {
                Err(e) => Err(e),
                Ok((tls, p4)) => Ok::<(Option<STimelineData>, int), PErr>(
                    (
                        Some(
                            STimelineData {
                                named_frames: named_frame_run(
                                    tv,
                                    named_frame_start as int,
                                    named_frame_count as int,
                                ),
                                timelines: tls,
                            },
                        ),
                        p4,
                    ),
                ),
            },
            has_children,
        decreases timeline_count - i,
    {
        let ghost q0 = c.pos as int;
        let t = read_one_timeline(c, children, strings, pools, tables)?;
        let ghost st = timeline_view(t);
        let ghost before = timelines@;
        timelines.push(t);
        proof {
            assert(timelines_view(timelines@) =~= timelines_view(before).push(st));
            let rest = v8_timelines(d, c.pos as int, cs, strs, pv, tv, (timeline_count - i - 1) as nat);
            if let Ok((s, q)) = rest {
                assert(timelines_view(before) + (seq![st] + s) =~= timelines_view(timelines@) + s);
            }
        }
        i = i + 1;
    }
    proof {
        assert(timelines_view(timelines@) + Seq::<STimeline>::empty() =~= timelines_view(timelines@));
    }
    let ghost tlv = timelines_view(timelines@);
    let t = TimelineData { named_frames, timelines };
    assert(super::timeline_data_view(t).timelines =~= tlv);
    Ok(Some(t))
}

fn read_paths(c: &mut Cursor, tc: &str, path_count: u32) -> (r: Result<Vec<KeyframePath>, ParseError>)
    requires
        old(c).inv(),
    ensures
        final(c).data == old(c).data,
        final(c).seen_compounds == old(c).seen_compounds,
        final(c).inv(),
        match v8_paths(old(c).data@, old(c).pos as int, tc@, path_count as nat) {
            Ok((ps, p)) => r matches Ok(x) && paths_view(x@) == ps && final(c).pos == p
                && old(c).pos <= p,
            Err(e) => r matches Err(x) && error_is(x, e),
        },
{
    let ghost d = c.data@;
    let ghost p2 = c.pos as int;
    let mut paths: Vec<KeyframePath> = Vec::new();
    let ghost pw = v8_paths(d, p2, tc@, path_count as nat);
    assert(pw == cat2(paths_view(paths@), pw)) by {
        if let Ok((s, q)) = pw {
            assert(paths_view(paths@) + s =~= s);
        }
    }
    let mut k: u32 = 0;
    while k < path_count
        invariant
            c.data == old(c).data,
            c.seen_compounds == old(c).seen_compounds,
            c.data@ == d,
            d == old(c).data@,
            p2 == old(c).pos,
            p2 <= c.pos,
            c.inv(),
            k <= path_count,
            pw == v8_paths(d, p2, tc@, path_count as nat),
            pw == cat2(paths_view(paths@), v8_paths(d, c.pos as int, tc@, (path_count - k) as nat)),
        decreases path_count - k,
    {
        let ghost before = paths@;
        let path = read_path(c, tc)?;
        paths.push(path);
        proof {
            assert(paths_view(paths@) =~= paths_view(before).push(path_view(path)));
            if let Ok((s, q)) = v8_paths(d, c.pos as int, tc@, (path_count - k - 1) as nat) {
                assert(paths_view(before) + (seq![path_view(path)] + s) =~= paths_view(paths@)
                    + s);
            }
        }
        k = k + 1;
    }
    proof {
        assert(paths_view(paths@) + Seq::<SPath>::empty() =~= paths_view(paths@));
    }
    Ok(paths)
}

fn read_one_timeline(
    c: &mut Cursor,
    children: &Vec<Object>,
    strings: &Vec<String>,
    pools: &Pools,
    tables: &TimelineTables,
) -> (r: Result<Timeline, ParseError>)
    requires
        old(c).inv(),
    ensures
        final(c).data == old(c).data,
        final(c).seen_compounds == old(c).seen_compounds,
        final(c).inv(),
        match v8_one_timeline(
            old(c).data@,
            old(c).pos as int,
            objects_view(children@),
            strings_view(strings@),
            pools_view(*pools),
            tables_view(*tables),
        ) {
            Ok((t, p)) => r matches Ok(x) && timeline_view(x) == t && final(c).pos == p
                && old(c).pos <= p,
            Err(e) => r matches Err(x) && error_is(x, e),
        },
{
    let target_name = c.varint()?;
    let target_class = find_child_class(children, strings, target_name);
    let tc: &str = match &target_class {
        Some(s) => s.as_str(),
        None => {
            let e = "";
            proof {
                reveal_strlit("");
                assert(e@ =~= Seq::<char>::empty());
            }
            e
        },
    };
    let ghost tcv = super::opt_string_view(target_class);
    let path_count = c.varint()?;
    let paths = read_paths(c, tc, path_count)?;
    let keyframe_count = c.varint()? as usize;
    let keyframe_start = c.varint()? as usize;
    let keyframes = build_keyframes(tables, keyframe_start, keyframe_count, &paths, pools);
    let ghost pvw = paths_view(paths@);
    let ghost kvw = keyframes_view(keyframes@);
    let t = Timeline { target_name, target_class, paths, keyframes };
    assert(timeline_view(t).paths =~= pvw);
    assert(timeline_view(t).keyframes =~= kvw);
    Ok(t)
}

// ---------------------------------------------------------------------------
// Objects
// ---------------------------------------------------------------------------

/// Property types for a given hierarchy level: level 0 is always XuiElement,
/// levels 1.. come from the derived-class hierarchy; levels past it have no
/// known properties.
pub open spec fn spec_level_types(hier: Seq<TypeTable>, level: int) -> TypeTable {
    if level == 0 {
        TypeTable::XuiElement
    } else if 0 <= level - 1 < hier.len() {
        hier[level - 1]
    } else {
        TypeTable::Empty
    }
}

pub fn level_types(hierarchy: &Vec<TypeTable>, level: usize) -> (r: TypeTable)
    ensures
        r == spec_level_types(hierarchy@, level as int),
{
    if level == 0 {
        TypeTable::XuiElement
    } else if level - 1 < hierarchy.len() {
        hierarchy[level - 1]
    } else {
        TypeTable::Empty
    }
}

/// Class levels from `level` on until `target` properties are consumed.
pub open spec fn v8_levels(
    d: Seq<u8>,
    p: int,
    seen: Set<u32>,
    hier: Seq<TypeTable>,
    level: int,
    consumed: int,
    target: int,
    pools: SPools,
) -> Result<(Seq<SGroup>, int, Set<u32>), PErr>
    decreases d.len() - p,
{
    if consumed >= target {
        Ok((Seq::empty(), p, seen))
    } else {
        match v8_level(d, p, seen, spec_level_types(hier, level), level, pools) {
            Err(e) => Err(e),
            Ok((g, n, q, s2)) => if q <= p || q > d.len() {
                Err(PErr::BadObject)
            } else {
                cat3(
                    match g {
                        Some(g) => seq![g],
                        None => Seq::empty(),
                    },
                    v8_levels(d, q, s2, hier, level + 1, consumed + n, target, pools),
                )
            },
        }
    }
}

/// The first position from `p` on that does not hold a 0 byte.
pub open spec fn skip_zeros(d: Seq<u8>, p: int) -> int
    decreases d.len() - p,
{
    if p < 0 || p >= d.len() || d[p] != 0 {
        p
    } else {
        skip_zeros(d, p + 1)
    }
}

/// The property block of an object whose class is `class` and whose flags
/// byte is `flags`, starting at `p`: a value count, the class levels, and the
/// empty levels (zero bytes) that trail them.
pub open spec fn v8_props(
    d: Seq<u8>,
    class: Seq<char>,
    flags: u8,
    p: int,
    seen: Set<u32>,
    pools: SPools,
) -> Result<(Seq<SGroup>, int, Set<u32>), PErr> {
    if flags & 1 != 0 {
        match varint(d, p) {
            Err(e) => Err(e),
            Ok((vc, q)) => match v8_levels(
                d,
                q,
                seen,
                spec_hierarchy(class),
                0,
                0,
                vc as int,
                pools,
            ) {
                Err(e) => Err(e),
                Ok((gs, q2, s2)) => Ok((gs, skip_zeros(d, q2), s2)),
            },
        }
    } else {
        Ok((Seq::empty(), p, seen))
    }
}

/// The optional object id at `p` (present when flag `8` is set): where the
/// reading goes on.
pub open spec fn v8_id(d: Seq<u8>, flags: u8, p: int) -> Result<int, PErr> {
    if flags & 8 != 0 {
        match varint(d, p) {
            Err(e) => Err(e),
            Ok((_, q)) => Ok(q),
        }
    } else {
        Ok(p)
    }
}

/// An object at `p`: `class` (varint, 1-based string index), `flags` (byte),
/// then what the flags announce: properties (varint value count, then class
/// levels until that many values are consumed, then trailing empty levels),
/// an id (varint), children (varint count), a timeline block.
#[verifier::opaque]
pub open spec fn v8_object(
    d: Seq<u8>,
    strs: Seq<Seq<char>>,
    p: int,
    seen: Set<u32>,
    pools: SPools,
    tables: STables,
) -> Result<(SObject, int, Set<u32>), PErr>
    decreases d.len() - p, 0int, 0int,
{
    match varint(d, p) {
        Err(e) => Err(e),
        Ok((ci, p1)) => if ci == 0 {
            Err(eof_at("null class @"@, p1))
        } else {
            let class = class_of(strs, ci);
            match b8(d, p1) {
                Err(e) => Err(e),
                Ok((flags, p2)) => {
                    match v8_props(d, class, flags, p2, seen, pools) {
                        Err(e) => Err(e),
                        Ok((groups, p3, s3)) => if p3 < p2 || p3 > d.len() {
                            Err(PErr::BadObject)
                        } else {
                            match v8_id(d, flags, p3) {
                                Err(e) => Err(e),
                                Ok(p4) => if p4 < p3 || p4 > d.len() {
                                    Err(PErr::BadObject)
                                } else {
                                    let ch: Result<(Seq<SObject>, int, Set<u32>), PErr> = if flags
                                        & 2 != 0 {
                                        match varint(d, p4) {
                                            Err(e) => Err(e),
                                            Ok((count, p5)) => v8_children(
                                                d,
                                                strs,
                                                p5,
                                                s3,
                                                pools,
                                                tables,
                                                0,
                                                count as nat,
                                            ),
                                        }
                                    } else {
                                        Ok((Seq::empty(), p4, s3))
                                    };
                                    match ch {
                                        Err(e) => Err(e),
                                        Ok((children, p6, s6)) => {
                                            let tl = if flags & 4 != 0 {
                                                v8_timeline(
                                                    d,
                                                    p6,
                                                    flags & 2 != 0,
                                                    children,
                                                    strs,
                                                    pools,
                                                    tables,
                                                )
                                            } else {
                                                Ok((None, p6))
                                            };
                                            match tl {
                                                Err(e) => Err(e),
                                                Ok((t, p7)) => Ok(
                                                    (
                                                        SObject {
                                                            class_name: ci,
                                                            properties: groups,
                                                            children,
                                                            timelines: t,
                                                            raw_props: d.subrange(p2, p3),
                                                        },
                                                        p7,
                                                        s6,
                                                    ),
                                                ),
                                            }
                                        },
                                    }
                                },
                            }
                        },
                    }
                },
            }
        },
    }
}

/// The error of child `i` of `count` that failed with `e`: a `BadObject`
/// whose message names the child and holds the message of `e`.
pub open spec fn child_failure(i: nat, count: nat, e: PErr) -> PErr {
    match e {
        PErr::BadObjectText(m) => PErr::BadObjectText(
            "child "@ + dec(i) + "/"@ + dec(count) + ": "@ + "bad object: "@ + m,
        ),
        _ => PErr::BadObject,
    }
}

/// Children `i..count` from `p`; any failure inside a child is a `BadObject`.
pub open spec fn v8_children(
    d: Seq<u8>,
    strs: Seq<Seq<char>>,
    p: int,
    seen: Set<u32>,
    pools: SPools,
    tables: STables,
    i: nat,
    count: nat,
) -> Result<(Seq<SObject>, int, Set<u32>), PErr>
    decreases d.len() - p, 1int, count - i,
{
    if i >= count {
        Ok((Seq::empty(), p, seen))
    } else {
        match v8_object(d, strs, p, seen, pools, tables) {
            Err(e) => Err(child_failure(i, count, e)),
            Ok((o, q, s2)) => if q <= p || q > d.len() {
                Err(PErr::BadObject)
            } else {
                cat3(seq![o], v8_children(d, strs, q, s2, pools, tables, i + 1, count))
            },
        }
    }
}

/// Reads the class levels of an object's properties until `value_count`
/// values are consumed.
#[verifier::rlimit(80)]
#[verifier::spinoff_prover]
fn read_levels(
    c: &mut Cursor,
    hierarchy: &Vec<TypeTable>,
    value_count: u32,
    pools: &Pools,
) -> (r: Result<Vec<PropertyGroup>, ParseError>)
    requires
        old(c).inv(),
    ensures
        final(c).data == old(c).data,
        final(c).inv(),
        match v8_levels(
            old(c).data@,
            old(c).pos as int,
            old(c).seen_compounds@,
            hierarchy@,
            0,
            0,
            value_count as int,
            pools_view(*pools),
        ) {
            Ok((gs, p, s)) => r matches Ok(x) && groups_view(x@) == gs && final(c).pos == p
                && final(c).seen_compounds@ == s && old(c).pos <= p,
            Err(e) => r matches Err(x) && error_is(x, e),
        },
{
    let ghost d = c.data@;
    let ghost pv = pools_view(*pools);
    let ghost whole = v8_levels(
        d,
        c.pos as int,
        c.seen_compounds@,
        hierarchy@,
        0,
        0,
        value_count as int,
        pv,
    );
    let mut properties: Vec<PropertyGroup> = Vec::new();
    assert(whole == cat3(groups_view(properties@), whole)) by {
        if let Ok((s, q, t)) = whole {
            assert(groups_view(properties@) + s =~= s);
        }
    }
    let mut consumed: u64 = 0;
    let mut level: usize = 0;
    while consumed < value_count as u64
        invariant
            c.data == old(c).data,
            c.data@ == d,
            d == old(c).data@,
            c.inv(),
            old(c).pos <= c.pos,
            pv == pools_view(*pools),
            consumed <= value_count + 0xffff_ffff,
            level <= c.pos - old(c).pos,
            whole == v8_levels(
                d,
                old(c).pos as int,
                old(c).seen_compounds@,
                hierarchy@,
                0,
                0,
                value_count as int,
                pv,
            ),
            whole == cat3(
                groups_view(properties@),
                v8_levels(
                    d,
                    c.pos as int,
                    c.seen_compounds@,
                    hierarchy@,
                    level as int,
                    consumed as int,
                    value_count as int,
                    pv,
                ),
            ),
        decreases d.len() - c.pos,
    {
        let types = level_types(hierarchy, level);
        let ghost before = properties@;
        let (g, n) = read_level(c, types, level, pools)?;
        match g {
            Some(g) => {
                let ghost gv = group_view(g);
                properties.push(g);
                proof {
                    assert(groups_view(properties@) =~= groups_view(before).push(gv));
                    let rest = v8_levels(
                        d,
                        c.pos as int,
                        c.seen_compounds@,
                        hierarchy@,
                        level + 1,
                        consumed + n,
                        value_count as int,
                        pv,
                    );
                    if let Ok((s, q, t)) = rest {
                        assert(groups_view(before) + (seq![gv] + s) =~= groups_view(properties@)
                            + s);
                    }
                }
            },
            None => {
                proof {
                    let rest = v8_levels(
                        d,
                        c.pos as int,
                        c.seen_compounds@,
                        hierarchy@,
                        level + 1,
                        consumed + n,
                        value_count as int,
                        pv,
                    );
                    if let Ok((s, q, t)) = rest {
                        assert(Seq::<SGroup>::empty() + s =~= s);
                    }
                }
            },
        }
        consumed = consumed + n as u64;
        level = level + 1;
    }
    proof {
        assert(groups_view(properties@) + Seq::<SGroup>::empty() =~= groups_view(properties@));
    }
    Ok(properties)
}

/// Reads the property block of an object (see `v8_props`).
#[verifier::rlimit(40)]
fn read_props(c: &mut Cursor, class_str: &str, flags: u8, pools: &Pools) -> (r: Result<
    Vec<PropertyGroup>,
    ParseError,
>)
    requires
        old(c).inv(),
    ensures
        final(c).data == old(c).data,
        final(c).inv(),
        match v8_props(
            old(c).data@,
            class_str@,
            flags,
            old(c).pos as int,
            old(c).seen_compounds@,
            pools_view(*pools),
        ) {
            Ok((gs, p, s)) => r matches Ok(x) && groups_view(x@) == gs && final(c).pos == p
                && final(c).seen_compounds@ == s && old(c).pos <= p,
            Err(e) => r matches Err(x) && error_is(x, e),
        },
{
    let ghost d = c.data@;
    if flags & object_flags::HAS_PROPERTIES != 0 {
        let value_count = match c.varint() {
            Ok(v) => v,
            Err(e) => {
                return Err(e);
            },
        };
        // The loader walks the full class hierarchy from base to derived,
        // reading one bitmask per level including empty ones. Rather than trust
        // a hardcoded depth, read levels until `value_count` set bits are
        // consumed, then skip trailing empty levels: their `0x00` bitmask byte
        // is unambiguous because no class index, id, or non-empty child count
        // is 0.
        let hierarchy = get_hierarchy(class_str);
        let props = read_levels(c, &hierarchy, value_count, pools)?;
        let ghost q2 = c.pos as int;
        let ghost s2 = c.seen_compounds@;
        while c.peek() == Some(0u8)
            invariant
                c.data == old(c).data,
                c.data@ == d,
                c.inv(),
                c.seen_compounds@ == s2,
                q2 <= c.pos,
                skip_zeros(d, q2) == skip_zeros(d, c.pos as int),
            decreases d.len() - c.pos,
        {
            c.pos = c.pos + 1;
        }
        Ok(props)
    } else {
        let v: Vec<PropertyGroup> = Vec::new();
        assert(groups_view(v@) =~= Seq::<SGroup>::empty());
        Ok(v)
    }
}

/// Skips the object id when the flags say that one is present (see `v8_id`).
fn skip_id(c: &mut Cursor, flags: u8) -> (r: Result<(), ParseError>)
    requires
        old(c).inv(),
    ensures
        final(c).data == old(c).data,
        final(c).seen_compounds == old(c).seen_compounds,
        final(c).inv(),
        match v8_id(old(c).data@, flags, old(c).pos as int) {
            Ok(p) => r is Ok && final(c).pos == p,
            Err(e) => r matches Err(x) && error_is(x, e),
        },
{
    if flags & object_flags::HAS_ID != 0 {
        let _id = c.varint()?;
    }
    Ok(())
}

#[verifier::rlimit(100)]
#[verifier::spinoff_prover]
fn parse_object<'a>(
    c: &mut Cursor<'a>,
    full: &'a [u8],
    strings: &Vec<String>,
    pools: &Pools,
    tables: &TimelineTables,
) -> (r: Result<Object<'a>, ParseError>)
    requires
        old(c).inv(),
        old(c).data == full,
    ensures
        final(c).data == old(c).data,
        final(c).inv(),
        match v8_object(
            full@,
            strings_view(strings@),
            old(c).pos as int,
            old(c).seen_compounds@,
            pools_view(*pools),
            tables_view(*tables),
        ) {
            Ok((o, p, s)) => r matches Ok(x) && object_view(x) == o && final(c).pos == p
                && final(c).seen_compounds@ == s && old(c).pos < p,
            Err(e) => r matches Err(x) && error_is(x, e),
        },
    decreases old(c).data@.len() - old(c).pos, 0int,
{
    reveal(v8_object);
    let ghost d = full@;
    let class_index = c.varint()?;
    if class_index == 0 {
        return Err(eof_message("null class @", c.pos));
    }
    let class_str = class_name(strings, class_index);
    let flags = c.byte()?;

    let props_start = c.pos;
    let properties = read_props(c, class_str, flags, pools)?;
    let raw_props = &full[props_start..c.pos];
    skip_id(c, flags)?;

    let children: Vec<Object<'a>> = if flags & object_flags::HAS_CHILDREN != 0 {
        let child_count = c.varint()?;
        parse_children(c, full, strings, pools, tables, child_count)?
    } else {
        let v: Vec<Object<'a>> = Vec::new();
        assert(objects_view(v@) =~= Seq::<SObject>::empty());
        v
    };

    let timelines = if flags & object_flags::HAS_TIMELINE != 0 {
        parse_timeline(
            c,
            flags & object_flags::HAS_CHILDREN != 0,
            &children,
            strings,
            pools,
            tables,
        )?
    } else {
        None
    };

    let obj = Object {
        class_name: class_index,
        properties,
        children,
        timelines,
        _raw_props: raw_props,
    };
    proof {
        lemma_object_view(obj);
    }
    Ok(obj)
}

fn parse_children<'a>(
    c: &mut Cursor<'a>,
    full: &'a [u8],
    strings: &Vec<String>,
    pools: &Pools,
    tables: &TimelineTables,
    child_count: u32,
) -> (r: Result<Vec<Object<'a>>, ParseError>)
    requires
        old(c).inv(),
        old(c).data == full,
    ensures
        final(c).data == old(c).data,
        final(c).inv(),
        match v8_children(
            full@,
            strings_view(strings@),
            old(c).pos as int,
            old(c).seen_compounds@,
            pools_view(*pools),
            tables_view(*tables),
            0,
            child_count as nat,
        ) {
            Ok((os, p, s)) => r matches Ok(x) && objects_view(x@) == os && final(c).pos == p
                && final(c).seen_compounds@ == s && old(c).pos <= p,
            Err(e) => r matches Err(x) && error_is(x, e),
        },
    decreases old(c).data@.len() - old(c).pos, 1int,
{
    let ghost d = full@;
    let ghost strs = strings_view(strings@);
    let ghost pv = pools_view(*pools);
    let ghost tv = tables_view(*tables);
    let ghost whole = v8_children(
        d,
        strs,
        c.pos as int,
        c.seen_compounds@,
        pv,
        tv,
        0,
        child_count as nat,
    );
    let mut children: Vec<Object<'a>> = Vec::new();
    assert(whole == cat3(objects_view(children@), whole)) by {
        if let Ok((s, q, t)) = whole {
            assert(objects_view(children@) + s =~= s);
        }
    }
    let mut i: u32 = 0;
    while i < child_count
        invariant
            c.data == old(c).data,
            c.data == full,
            d == old(c).data@,
            strs == strings_view(strings@),
            pv == pools_view(*pools),
            tv == tables_view(*tables),
            c.data@ == d,
            c.inv(),
            old(c).pos <= c.pos,
            i <= child_count,
            whole == v8_children(
                d,
                strs,
                old(c).pos as int,
                old(c).seen_compounds@,
                pv,
                tv,
                0,
                child_count as nat,
            ),
            whole == cat3(
                objects_view(children@),
                v8_children(
                    d,
                    strs,
                    c.pos as int,
                    c.seen_compounds@,
                    pv,
                    tv,
                    i as nat,
                    child_count as nat,
                ),
            ),
        decreases child_count - i,
    {
        let ghost before = children@;
        let ghost q0 = c.pos as int;
        let ghost s0 = c.seen_compounds@;
        match parse_object(c, full, strings, pools, tables) {
            Ok(child) => {
                children.push(child);
                proof {
                    assert(objects_view(children@) =~= objects_view(before).push(
                        object_view(child),
                    ));
                    let rest = v8_children(
                        d,
                        strs,
                        c.pos as int,
                        c.seen_compounds@,
                        pv,
                        tv,
                        (i + 1) as nat,
                        child_count as nat,
                    );
                    lemma_v8_children_step(
                        d,
                        strs,
                        q0,
                        s0,
                        pv,
                        tv,
                        i as nat,
                        child_count as nat,
                        object_view(child),
                        c.pos as int,
                        c.seen_compounds@,
                    );
                    if let Ok((s, q, t)) = rest {
                        assert(objects_view(before) + (seq![object_view(child)] + s)
                            =~= objects_view(children@) + s);
                    }
                }
            },
            Err(e) => {
                proof {
                    lemma_v8_children_fail(d, strs, q0, s0, pv, tv, i as nat, child_count as nat);
                }
                let mut msg = String::new();
                push_str(&mut msg, "child ");
                push_dec(&mut msg, i as u64);
                push_str(&mut msg, "/");
                push_dec(&mut msg, child_count as u64);
                push_str(&mut msg, ": ");
                let inner = e.message();
                push_str(&mut msg, inner.as_str());
                proof {
                    let es = v8_object(d, strs, q0, s0, pv, tv)->Err_0;
                    if let PErr::BadObjectText(m) = es {
                        assert(msg@ =~= "child "@ + dec(i as nat) + "/"@ + dec(child_count as nat)
                            + ": "@ + "bad object: "@ + m);
                    }
                }
                return Err(ParseError::BadObject(msg));
            },
        }
        i = i + 1;
    }
    proof {
        assert(objects_view(children@) + Seq::<SObject>::empty() =~= objects_view(children@));
    }
    Ok(children)
}

proof fn lemma_v8_children_step(
    d: Seq<u8>,
    strs: Seq<Seq<char>>,
    p: int,
    seen: Set<u32>,
    pools: SPools,
    tables: STables,
    i: nat,
    count: nat,
    o: SObject,
    q: int,
    s2: Set<u32>,
)
    requires
        v8_object(d, strs, p, seen, pools, tables) == Ok::<(SObject, int, Set<u32>), PErr>(
            (o, q, s2),
        ),
        p < q <= d.len(),
        i < count,
    ensures
        v8_children(d, strs, p, seen, pools, tables, i, count) == cat3(
            seq![o],
            v8_children(d, strs, q, s2, pools, tables, i + 1, count),
        ),
{
    reveal(v8_object);
}

proof fn lemma_v8_children_fail(
    d: Seq<u8>,
    strs: Seq<Seq<char>>,
    p: int,
    seen: Set<u32>,
    pools: SPools,
    tables: STables,
    i: nat,
    count: nat,
)
    requires
        v8_object(d, strs, p, seen, pools, tables) is Err,
        i < count,
    ensures
        v8_children(d, strs, p, seen, pools, tables, i, count) == Err::<
            (Seq<SObject>, int, Set<u32>),
            PErr,
        >(child_failure(i, count, v8_object(d, strs, p, seen, pools, tables)->Err_0)),
{
    reveal(v8_object);
}

// ---------------------------------------------------------------------------
// File parsing
// ---------------------------------------------------------------------------

pub open spec fn or_empty(s: Option<Seq<u8>>) -> Seq<u8> {
    match s {
        Some(b) => b,
        None => Seq::empty(),
    }
}

/// The whole v8 file: header, section table (located by its `STRN` record),
/// the STRN and DATA sections (required), the optional pools and timeline
/// tables, the string table and the root object.
pub open spec fn v8_parse(data: Seq<u8>) -> Result<SXur, PErr> {
    let len = data.len() as int;
    if len < HEADER_SIZE {
        Err(PErr::TooShort { needed: HEADER_SIZE as int, available: len })
    } else {
        match spec_header(data) {
            Err(e) => Err(e),
            Ok(h) => match v8_sections(data, h.section_count as int) {
                Err(e) => Err(e),
                Ok(secs) => {
                    let get = |tag: Seq<u8>| spec_section_get(data, spec_find_section(secs, tag));
                    match get(section_tag::STRN@) {
                        None => Err(PErr::MissingSection("STRN"@)),
                        Some(strn) => match get(section_tag::DATA@) {
                            None => Err(PErr::MissingSection("DATA"@)),
                            Some(ds) => {
                                let strs = v8_strings(strn);
                                let pools = SPools {
                                    flot: or_empty(get(section_tag::FLOT@)),
                                    colr: or_empty(get(section_tag::COLR@)),
                                };
                                let tables = STables {
                                    named_frames: named_frames_from(
                                        or_empty(get(section_tag::NAME@)),
                                        0,
                                    ),
                                    keyframes: keyframes_from(or_empty(get(section_tag::KEYD@)), 0),
                                    keyp: keyp_from(or_empty(get(section_tag::KEYP@)), 0),
                                };
                                match v8_object(ds, strs, 0, Set::empty(), pools, tables) {
                                    Err(e) => Err(e),
                                    Ok((root, _, _)) => Ok(
                                        SXur {
                                            header: h,
                                            strings: strs,
                                            vectors: or_empty(get(section_tag::VECT@)),
                                            quaternions: or_empty(get(section_tag::QUAT@)),
                                            custom: or_empty(get(section_tag::CUST@)),
                                            root,
                                        },
                                    ),
                                }
                            },
                        },
                    }
                },
            },
        }
    }
}

fn section<'a>(data: &'a [u8], sections: &Vec<SectionHeader>, tag: &[u8; 4]) -> (r: Option<&'a [u8]>)
    requires
        usize::MAX == u64::MAX,
    ensures
        match spec_section_get(data@, spec_find_section(sections_view(sections@), tag@)) {
            Some(b) => r matches Some(x) && x@ == b,
            None => r is None,
        },
{
    let s = find_section(sections, tag);
    section_get(data, s)
}

fn section_or_empty<'a>(data: &'a [u8], sections: &Vec<SectionHeader>, tag: &[u8; 4]) -> (r: &'a [u8])
    requires
        usize::MAX == u64::MAX,
    ensures
        r@ == or_empty(spec_section_get(data@, spec_find_section(sections_view(sections@), tag@))),
{
    match section(data, sections, tag) {
        Some(b) => b,
        None => {
            let e: &[u8] = &[];
            assert(e@ =~= Seq::<u8>::empty());
            e
        },
    }
}

/// Parses a XUIB v8 binary.
pub fn parse(data: &[u8]) -> (r: Result<Xur<'_>, ParseError>)
    requires
        usize::MAX == u64::MAX,
    ensures
        match v8_parse(data@) {
            Ok(x) => r matches Ok(xur) && xur@ == x,
            Err(e) => r matches Err(x) && error_is(x, e),
        },
{
    if data.len() < HEADER_SIZE {
        return Err(ParseError::TooShort { needed: HEADER_SIZE, available: data.len() });
    }

    let header = parse_header(data)?;
    let sections = locate_sections(data, header.section_count as usize)?;

    let strn = match section(data, &sections, section_tag::STRN) {
        Some(s) => s,
        None => {
            return Err(ParseError::MissingSection("STRN"));
        },
    };
    let data_sect = match section(data, &sections, section_tag::DATA) {
        Some(s) => s,
        None => {
            return Err(ParseError::MissingSection("DATA"));
        },
    };
    let vect = section_or_empty(data, &sections, section_tag::VECT);
    let quat = section_or_empty(data, &sections, section_tag::QUAT);
    let cust = section_or_empty(data, &sections, section_tag::CUST);
    let flot = section_or_empty(data, &sections, section_tag::FLOT);
    let colr = section_or_empty(data, &sections, section_tag::COLR);

    let strings = parse_string_table(strn);
    let pools = Pools { flot, colr };
    let tables = TimelineTables {
        named_frames: parse_named_frames(section_or_empty(data, &sections, section_tag::NAME)),
        keyframes: parse_keyframes(section_or_empty(data, &sections, section_tag::KEYD)),
        keyp: parse_keyp(section_or_empty(data, &sections, section_tag::KEYP)),
    };

    let mut cursor = Cursor::new(data_sect);
    let root = parse_object(&mut cursor, data_sect, &strings, &pools, &tables)?;

    Ok(Xur { header, strings, vectors: vect, quaternions: quat, custom: cust, root })
}

} // verus!
