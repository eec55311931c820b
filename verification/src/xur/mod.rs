//! XUR (XUIB) binaries: the decoded data model and its abstract view.
pub mod archive;
pub mod bytes;
pub mod error;
pub mod header;
pub mod object_flags;
pub mod parse;
pub mod parse_v8;
pub mod section_tag;
pub mod tables;

use vstd::prelude::*;

pub use self::error::ParseError;
use self::archive::starts_with_magic;
use self::bytes::be32_at;
use self::bytes::u32_at;
use self::error::error_is;
use self::error::PErr;
use self::header::HEADER_SIZE;
use self::parse::v5_parse;
use self::parse_v8::v8_parse;

verus! {

/// Known file magic values.
pub const XUIB_MAGIC: &'static [u8; 4] = &[0x58, 0x55, 0x49, 0x42];
pub const XUIZ_MAGIC: &'static [u8; 4] = &[0x58, 0x55, 0x49, 0x5a];

/// Property value type IDs used in class property definitions.
#[derive(Debug, Clone, Copy, PartialEq, Eq, Structural)]
pub enum PropType {
    Bool,
    Integer,
    Unsigned,
    Float,
    String,
    Color,
    Vector3,
    Quaternion,
    Compound,
    Custom,
}

/// The property type with binary type ID `v` (1 through 10).
pub open spec fn prop_type_of(v: u8) -> Option<PropType> {
    if v == 1 {
        Some(PropType::Bool)
    } else if v == 2 {
        Some(PropType::Integer)
    } else if v == 3 {
        Some(PropType::Unsigned)
    } else if v == 4 {
        Some(PropType::Float)
    } else if v == 5 {
        Some(PropType::String)
    } else if v == 6 {
        Some(PropType::Color)
    } else if v == 7 {
        Some(PropType::Vector3)
    } else if v == 8 {
        Some(PropType::Quaternion)
    } else if v == 9 {
        Some(PropType::Compound)
    } else if v == 10 {
        Some(PropType::Custom)
    } else {
        None
    }
}

/// The binary type ID of a property type.
pub open spec fn prop_type_id(t: PropType) -> u8 {
    match t {
        PropType::Bool => 1,
        PropType::Integer => 2,
        PropType::Unsigned => 3,
        PropType::Float => 4,
        PropType::String => 5,
        PropType::Color => 6,
        PropType::Vector3 => 7,
        PropType::Quaternion => 8,
        PropType::Compound => 9,
        PropType::Custom => 10,
    }
}

impl PropType {
    pub fn from_u8(v: u8) -> (r: Option<Self>)
        ensures
            r == prop_type_of(v),
    {
        match v {
            1 => Some(PropType::Bool),
            2 => Some(PropType::Integer),
            3 => Some(PropType::Unsigned),
            4 => Some(PropType::Float),
            5 => Some(PropType::String),
            6 => Some(PropType::Color),
            7 => Some(PropType::Vector3),
            8 => Some(PropType::Quaternion),
            9 => Some(PropType::Compound),
            10 => Some(PropType::Custom),
            _ => None,
        }
    }
}

/// Binary format version, detected from the file header.
#[derive(Debug, Clone, Copy, PartialEq, Eq, Structural)]
pub enum FormatVersion {
    /// XUIB version 5 (early Xbox 360 SDK). Values inline, no lookup tables.
    V5,
    /// XUIB version 8 (later Xbox 360 SDK). Uses FLOT/COLR/QUAT lookup tables.
    V8,
    /// Unknown version.
    Unknown(u32),
}

pub open spec fn format_version_of(v: u32) -> FormatVersion {
    if v == 5 {
        FormatVersion::V5
    } else if v == 8 {
        FormatVersion::V8
    } else {
        FormatVersion::Unknown(v)
    }
}

impl FormatVersion {
    pub fn from_u32(v: u32) -> (r: Self)
        ensures
            r == format_version_of(v),
    {
        match v {
            5 => FormatVersion::V5,
            8 => FormatVersion::V8,
            other => FormatVersion::Unknown(other),
        }
    }
}

#[derive(Debug, Clone, Copy)]
pub struct Header {
    pub magic: [u8; 4],
    pub format_version: FormatVersion,
    pub raw_version: u32,
    pub reserved: u32,
    pub xui_version: u16,
    pub total_size: u32,
    pub section_count: u16,
}

#[derive(Debug, Clone, Copy)]
pub struct SectionHeader {
    pub tag: [u8; 4],
    pub offset: u32,
    pub size: u32,
}

/// A parsed element in the tree.
#[derive(Debug)]
pub struct Object<'a> {
    pub class_name: u32,
    pub properties: Vec<PropertyGroup>,
    pub children: Vec<Object<'a>>,
    pub timelines: Option<TimelineData>,
    pub _raw_props: &'a [u8],
}

/// A group of properties at one class hierarchy level.
#[derive(Debug)]
pub struct PropertyGroup {
    pub bitmask: u32,
    pub values: Vec<PropertyValue>,
    /// Hierarchy level: 0 = XuiElement base, 1+ = derived levels (innermost first)
    pub level: usize,
}

/// A property value. `Float` holds the IEEE-754 bit pattern of the `f32`.
#[derive(Debug)]
pub enum PropertyValue {
    Bool(bool),
    Integer(u32),
    Unsigned(u32),
    Float(u32),
    String(u32),
    Color(u32),
    Vector(u32),
    Quaternion(u32),
    Object(Vec<PropertyGroup>),
    Custom(u32),
    Unknown(Vec<u8>),
}

/// A named frame of a timeline.
#[derive(Debug, Clone, Copy, PartialEq, Eq, Structural)]
pub struct NamedFrame {
    pub name: u32,
    pub time: u32,
    pub command: u8,
    pub from_name: u32,
}

/// The timeline block of an object.
#[derive(Debug, Clone)]
pub struct TimelineData {
    pub named_frames: Vec<NamedFrame>,
    pub timelines: Vec<Timeline>,
}

/// The animation of one child element.
#[derive(Debug, Clone)]
pub struct Timeline {
    pub target_name: u32,
    pub target_class: Option<String>,
    pub paths: Vec<KeyframePath>,
    pub keyframes: Vec<Keyframe>,
}

/// The property that one animated value track addresses.
#[derive(Debug, Clone)]
pub struct KeyframePath {
    pub hier_level: u8,
    pub prop_idx: u8,
    pub prop_type: Option<PropType>,
    pub prop_name: String,
    pub depth: u8,
    pub extra_bytes: Vec<u8>,
    pub default_value: Option<u32>,
}

/// One keyframe: its time, interpolation, and a value per path.
#[derive(Debug, Clone)]
pub struct Keyframe {
    pub time: u32,
    pub interpolation: u8,
    pub ease: [u8; 3],
    pub values: Vec<TimelineValue>,
}

/// An animated value. `Float` holds the IEEE-754 bit pattern of the `f32`.
#[derive(Debug, Clone, Copy, PartialEq, Eq, Structural)]
pub enum TimelineValue {
    Bool(bool),
    Float(u32),
    Unsigned(u32),
    String(u32),
    Color(u32),
    Vector(u32),
    Quaternion(u32),
}

/// A parsed XUR file. Version-independent output structure.
#[derive(Debug)]
pub struct Xur<'a> {
    pub header: Header,
    pub strings: Vec<String>,
    pub vectors: &'a [u8],
    pub quaternions: &'a [u8],
    pub custom: &'a [u8],
    pub root: Object<'a>,
}

// ---------------------------------------------------------------------------
// Abstract view
// ---------------------------------------------------------------------------

pub enum SValue {
    Bool(bool),
    Integer(u32),
    Unsigned(u32),
    Float(u32),
    String(u32),
    Color(u32),
    Vector(u32),
    Quaternion(u32),
    Object(Seq<SGroup>),
    Custom(u32),
    Unknown(Seq<u8>),
}

pub struct SGroup {
    pub bitmask: u32,
    pub values: Seq<SValue>,
    pub level: int,
}

pub struct SPath {
    pub hier_level: u8,
    pub prop_idx: u8,
    pub prop_type: Option<PropType>,
    pub prop_name: Seq<char>,
    pub depth: u8,
    pub extra_bytes: Seq<u8>,
    pub default_value: Option<u32>,
}

pub struct SKeyframe {
    pub time: u32,
    pub interpolation: u8,
    pub ease: Seq<u8>,
    pub values: Seq<TimelineValue>,
}

pub struct STimeline {
    pub target_name: u32,
    pub target_class: Option<Seq<char>>,
    pub paths: Seq<SPath>,
    pub keyframes: Seq<SKeyframe>,
}

pub struct STimelineData {
    pub named_frames: Seq<NamedFrame>,
    pub timelines: Seq<STimeline>,
}

pub struct SObject {
    pub class_name: u32,
    pub properties: Seq<SGroup>,
    pub children: Seq<SObject>,
    pub timelines: Option<STimelineData>,
    pub raw_props: Seq<u8>,
}

pub struct SXur {
    pub header: self::header::SHeader,
    pub strings: Seq<Seq<char>>,
    pub vectors: Seq<u8>,
    pub quaternions: Seq<u8>,
    pub custom: Seq<u8>,
    pub root: SObject,
}

/// Whether the decoded value `v` is of the kind that property type `ty`
/// holds: a flag, a number (integers decode as unsigned), a float, a string
/// index, a color, a vector or quaternion index, a custom offset, or the
/// groups of a compound.
pub open spec fn value_has_type(ty: PropType, v: SValue) -> bool {
    match ty {
        PropType::Bool => v is Bool,
        PropType::Integer | PropType::Unsigned => v is Unsigned,
        PropType::Float => v is Float,
        PropType::String => v is String,
        PropType::Color => v is Color,
        PropType::Vector3 => v is Vector,
        PropType::Quaternion => v is Quaternion,
        PropType::Custom => v is Custom,
        PropType::Compound => v is Object,
    }
}

/// The word a non-compound, non-flag value carries.
pub open spec fn value_word(v: SValue) -> u32 {
    match v {
        SValue::Integer(x) => x,
        SValue::Unsigned(x) => x,
        SValue::Float(x) => x,
        SValue::String(x) => x,
        SValue::Color(x) => x,
        SValue::Vector(x) => x,
        SValue::Quaternion(x) => x,
        SValue::Custom(x) => x,
        _ => 0,
    }
}

pub open spec fn value_view(v: PropertyValue) -> SValue
    decreases v,
{
    match v {
        PropertyValue::Bool(b) => SValue::Bool(b),
        PropertyValue::Integer(x) => SValue::Integer(x),
        PropertyValue::Unsigned(x) => SValue::Unsigned(x),
        PropertyValue::Float(x) => SValue::Float(x),
        PropertyValue::String(x) => SValue::String(x),
        PropertyValue::Color(x) => SValue::Color(x),
        PropertyValue::Vector(x) => SValue::Vector(x),
        PropertyValue::Quaternion(x) => SValue::Quaternion(x),
        PropertyValue::Object(gs) => SValue::Object(
            Seq::new(
                gs@.len(),
                |i: int|
                    if 0 <= i < gs@.len() {
                        group_view(gs@[i])
                    } else {
                        SGroup { bitmask: 0, values: Seq::empty(), level: 0 }
                    },
            ),
        ),
        PropertyValue::Custom(x) => SValue::Custom(x),
        PropertyValue::Unknown(b) => SValue::Unknown(b@),
    }
}

pub open spec fn group_view(g: PropertyGroup) -> SGroup
    decreases g,
{
    SGroup {
        bitmask: g.bitmask,
        values: Seq::new(
            g.values@.len(),
            |i: int|
                if 0 <= i < g.values@.len() {
                    value_view(g.values@[i])
                } else {
                    SValue::Bool(false)
                },
        ),
        level: g.level as int,
    }
}

pub open spec fn values_view(vs: Seq<PropertyValue>) -> Seq<SValue> {
    Seq::new(vs.len(), |i: int| value_view(vs[i]))
}

pub open spec fn groups_view(gs: Seq<PropertyGroup>) -> Seq<SGroup> {
    Seq::new(gs.len(), |i: int| group_view(gs[i]))
}

pub proof fn lemma_group_view(g: PropertyGroup)
    ensures
        group_view(g) == (SGroup {
            bitmask: g.bitmask,
            values: values_view(g.values@),
            level: g.level as int,
        }),
{
    assert(group_view(g).values =~= values_view(g.values@));
}

pub proof fn lemma_object_value_view(gs: Vec<PropertyGroup>)
    ensures
        value_view(PropertyValue::Object(gs)) == SValue::Object(groups_view(gs@)),
{
    if let SValue::Object(x) = value_view(PropertyValue::Object(gs)) {
        assert(x =~= groups_view(gs@));
    }
}

pub open spec fn path_view(p: KeyframePath) -> SPath {
    SPath {
        hier_level: p.hier_level,
        prop_idx: p.prop_idx,
        prop_type: p.prop_type,
        prop_name: p.prop_name@,
        depth: p.depth,
        extra_bytes: p.extra_bytes@,
        default_value: p.default_value,
    }
}

pub open spec fn keyframe_view(k: Keyframe) -> SKeyframe {
    SKeyframe { time: k.time, interpolation: k.interpolation, ease: k.ease@, values: k.values@ }
}

pub open spec fn opt_string_view(s: Option<String>) -> Option<Seq<char>> {
    match s {
        Some(s) => Some(s@),
        None => None,
    }
}

pub open spec fn timeline_view(t: Timeline) -> STimeline {
    STimeline {
        target_name: t.target_name,
        target_class: opt_string_view(t.target_class),
        paths: Seq::new(t.paths@.len(), |i: int| path_view(t.paths@[i])),
        keyframes: Seq::new(t.keyframes@.len(), |i: int| keyframe_view(t.keyframes@[i])),
    }
}

pub open spec fn timeline_data_view(t: TimelineData) -> STimelineData {
    STimelineData {
        named_frames: t.named_frames@,
        timelines: Seq::new(t.timelines@.len(), |i: int| timeline_view(t.timelines@[i])),
    }
}

pub open spec fn opt_timeline_data_view(t: Option<TimelineData>) -> Option<STimelineData> {
    match t {
        Some(t) => Some(timeline_data_view(t)),
        None => None,
    }
}

pub open spec fn object_view(o: Object) -> SObject
    decreases o,
{
    SObject {
        class_name: o.class_name,
        properties: groups_view(o.properties@),
        children: Seq::new(
            o.children@.len(),
            |i: int|
                if 0 <= i < o.children@.len() {
                    object_view(o.children@[i])
                } else {
                    SObject {
                        class_name: 0,
                        properties: Seq::empty(),
                        children: Seq::empty(),
                        timelines: None,
                        raw_props: Seq::empty(),
                    }
                },
        ),
        timelines: opt_timeline_data_view(o.timelines),
        raw_props: o._raw_props@,
    }
}

pub open spec fn objects_view(os: Seq<Object>) -> Seq<SObject> {
    Seq::new(os.len(), |i: int| object_view(os[i]))
}

pub proof fn lemma_object_view(o: Object)
    ensures
        object_view(o).children == objects_view(o.children@),
{
    assert(object_view(o).children =~= objects_view(o.children@));
}

pub open spec fn strings_view(s: Seq<String>) -> Seq<Seq<char>> {
    Seq::new(s.len(), |i: int| s[i]@)
}

impl<'a> View for Xur<'a> {
    type V = SXur;

    open spec fn view(&self) -> SXur {
        SXur {
            header: self::header::header_view(self.header),
            strings: strings_view(self.strings@),
            vectors: self.vectors@,
            quaternions: self.quaternions@,
            custom: self.custom@,
            root: object_view(self.root),
        }
    }
}

/// The string with 1-based index `index`, if there is one.
pub open spec fn string_at(strings: Seq<Seq<char>>, index: u32) -> Option<Seq<char>> {
    if 1 <= index <= strings.len() {
        Some(strings[index - 1])
    } else {
        None
    }
}

/// The three big-endian words of the 12-byte vector record at `index`.
pub open spec fn vector_at(vectors: Seq<u8>, index: u32) -> Option<(u32, u32, u32)> {
    let off = index as int * 12;
    if off + 12 > vectors.len() {
        None
    } else {
        Some((be32_at(vectors, off), be32_at(vectors, off + 4), be32_at(vectors, off + 8)))
    }
}

/// The four big-endian words of the 16-byte quaternion record at `index`.
pub open spec fn quaternion_at(quats: Seq<u8>, index: u32) -> Option<(u32, u32, u32, u32)> {
    let off = index as int * 16;
    if off + 16 > quats.len() {
        None
    } else {
        Some(
            (
                be32_at(quats, off),
                be32_at(quats, off + 4),
                be32_at(quats, off + 8),
                be32_at(quats, off + 12),
            ),
        )
    }
}

/// Whether `data` is a XUIB binary of format version 8: the magic, then the
/// big-endian version word at offset 4.
pub open spec fn is_v8(data: Seq<u8>) -> bool {
    &&& data.len() >= HEADER_SIZE
    &&& data.subrange(0, 4) == XUIB_MAGIC@
    &&& be32_at(data, 4) == 8
}

/// What a XUIB binary decodes to: the v8 layout for version 8 files, the v5
/// layout for everything else (which also rejects what is not XUIB).
pub open spec fn xur_parse(data: Seq<u8>) -> Result<SXur, PErr> {
    if is_v8(data) {
        v8_parse(data)
    } else {
        v5_parse(data)
    }
}

impl<'a> Xur<'a> {
    /// Parse a XUIB binary. For XUIZ archives, extract the XUIB first
    /// (see `archive::XuizArchive::find_xuib`).
    pub fn parse(data: &'a [u8]) -> (r: Result<Self, ParseError>)
        requires
            usize::MAX == u64::MAX,
        ensures
            match xur_parse(data@) {
                Ok(x) => r matches Ok(xur) && xur@ == x,
                Err(e) => r matches Err(x) && error_is(x, e),
            },
    {
        if data.len() >= HEADER_SIZE && starts_with_magic(data, XUIB_MAGIC) && u32_at(data, 4)
            == 8 {
            parse_v8::parse(data)
        } else {
            parse::parse(data)
        }
    }

    /// Get a string by 1-based index.
    pub fn get_string(&self, index: u32) -> (r: Option<&str>)
        ensures
            match string_at(self@.strings, index) {
                Some(s) => r matches Some(x) && x@ == s,
                None => r is None,
            },
    {
        if index == 0 {
            return None;
        }
        let i = (index - 1) as usize;
        if i < self.strings.len() {
            Some(self.strings[i].as_str())
        } else {
            None
        }
    }

    /// Get a vector3 by 0-based index, as the bit patterns of its three `f32`
    /// components.
    pub fn get_vector(&self, index: u32) -> (r: Option<(u32, u32, u32)>)
        ensures
            r == vector_at(self@.vectors, index),
    {
        let offset = (index as u64) * 12;
        if offset + 12 > self.vectors.len() as u64 {
            return None;
        }
        let off = offset as usize;
        let x = u32_at(self.vectors, off);
        let y = u32_at(self.vectors, off + 4);
        let z = u32_at(self.vectors, off + 8);
        Some((x, y, z))
    }

    /// Get a quaternion by 0-based index, as the bit patterns of its four
    /// `f32` components.
    pub fn get_quaternion(&self, index: u32) -> (r: Option<(u32, u32, u32, u32)>)
        ensures
            r == quaternion_at(self@.quaternions, index),
    {
        let offset = (index as u64) * 16;
        if offset + 16 > self.quaternions.len() as u64 {
            return None;
        }
        let off = offset as usize;
        let x = u32_at(self.quaternions, off);
        let y = u32_at(self.quaternions, off + 4);
        let z = u32_at(self.quaternions, off + 8);
        let w = u32_at(self.quaternions, off + 12);
        Some((x, y, z, w))
    }
}

// ---------------------------------------------------------------------------
// Laws
// ---------------------------------------------------------------------------

/// Every property type has its binary type ID, and an ID names at most one
/// type: `from_u8` undoes the encoding.
pub proof fn lemma_prop_type_ids(t: PropType, v: u8)
    ensures
        prop_type_of(prop_type_id(t)) == Some(t),
        prop_type_of(v) == Some(t) ==> v == prop_type_id(t),
        1 <= prop_type_id(t) <= 10,
{
}

/// The version number that a format version stands for.
pub open spec fn version_number(f: FormatVersion) -> u32 {
    match f {
        FormatVersion::V5 => 5,
        FormatVersion::V8 => 8,
        FormatVersion::Unknown(v) => v,
    }
}

/// `from_u32` loses nothing: the version number comes back from the format
/// version, and an unknown version is never 5 or 8.
pub proof fn lemma_format_version_round_trip(v: u32)
    ensures
        version_number(format_version_of(v)) == v,
        format_version_of(v) matches FormatVersion::Unknown(w) ==> w != 5 && w != 8,
{
}

/// A parsed XUR reports the header of the bytes it was parsed from, and those
/// bytes start with the XUIB magic.
pub proof fn lemma_parse_reports_header(data: Seq<u8>)
    requires
        xur_parse(data) is Ok,
    ensures
        xur_parse(data)->Ok_0.header == self::header::header_fields(data),
        data.len() >= HEADER_SIZE,
        data.subrange(0, 4) == XUIB_MAGIC@,
{
}

/// What is not a XUIB binary is refused: too short for a header, or else
/// with the magic it has.
pub proof fn lemma_parse_refuses_other_data(data: Seq<u8>)
    requires
        !(data.len() >= 4 && data.subrange(0, 4) == XUIB_MAGIC@),
    ensures
        data.len() < HEADER_SIZE ==> xur_parse(data) == Err::<SXur, PErr>(
            PErr::TooShort { needed: HEADER_SIZE as int, available: data.len() as int },
        ),
        data.len() >= HEADER_SIZE ==> xur_parse(data) == Err::<SXur, PErr>(
            PErr::BadMagic(data.subrange(0, 4)),
        ),
{
}

} // verus!
