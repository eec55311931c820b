//! The XUIB file header and section table records.
use vstd::prelude::*;

use super::archive::starts_with_magic;
use super::bytes::be16_at;
use super::bytes::be32_at;
use super::bytes::u16_at;
use super::bytes::u32_at;
use super::error::PErr;
use super::error::ParseError;
use super::format_version_of;
use super::FormatVersion;
use super::Header;
use super::SectionHeader;
use super::XUIB_MAGIC;
use crate::text::dec;
use crate::text::hex_pad;
use crate::text::push_dec;
use crate::text::push_hex_pad;
use crate::text::push_str;

verus! {

pub const HEADER_SIZE: usize = 0x14;

pub const SECTION_HEADER_SIZE: usize = 12;

/// The header as the contracts speak of it.
pub struct SHeader {
    pub magic: Seq<u8>,
    pub format_version: FormatVersion,
    pub raw_version: u32,
    pub reserved: u32,
    pub xui_version: u16,
    pub total_size: u32,
    pub section_count: u16,
}

pub open spec fn header_view(h: Header) -> SHeader {
    SHeader {
        magic: h.magic@,
        format_version: h.format_version,
        raw_version: h.raw_version,
        reserved: h.reserved,
        xui_version: h.xui_version,
        total_size: h.total_size,
        section_count: h.section_count,
    }
}

/// The header fields of a file of at least `HEADER_SIZE` bytes.
pub open spec fn header_fields(data: Seq<u8>) -> SHeader {
    SHeader {
        magic: data.subrange(0, 4),
        format_version: format_version_of(be32_at(data, 4)),
        raw_version: be32_at(data, 4),
        reserved: be32_at(data, 8),
        xui_version: be16_at(data, 0x0C),
        total_size: be32_at(data, 0x0E),
        section_count: be16_at(data, 0x12),
    }
}

/// The header, or `BadMagic` when the file does not start with `XUIB`.
pub open spec fn spec_header(data: Seq<u8>) -> Result<SHeader, PErr> {
    if data.subrange(0, 4) != XUIB_MAGIC@ {
        Err(PErr::BadMagic(data.subrange(0, 4)))
    } else {
        Ok(header_fields(data))
    }
}

pub fn parse_header(data: &[u8]) -> (r: Result<Header, ParseError>)
    requires
        data@.len() >= HEADER_SIZE,
    ensures
        match spec_header(data@) {
            Ok(h) => r matches Ok(x) && header_view(x) == h,
            Err(e) => r matches Err(x) && super::error::error_is(x, e),
        },
{
    let magic: [u8; 4] = [data[0], data[1], data[2], data[3]];
    assert(magic@ =~= data@.subrange(0, 4));
    if !starts_with_magic(data, XUIB_MAGIC) {
        return Err(ParseError::BadMagic(magic));
    }
    let raw_version = u32_at(data, 4);
    Ok(
        Header {
            magic,
            format_version: FormatVersion::from_u32(raw_version),
            raw_version,
            reserved: u32_at(data, 8),
            xui_version: u16_at(data, 0x0C),
            total_size: u32_at(data, 0x0E),
            section_count: u16_at(data, 0x12),
        },
    )
}

/// A section table record as the contracts speak of it.
pub struct SSection {
    pub tag: Seq<u8>,
    pub offset: u32,
    pub size: u32,
}

pub open spec fn section_view(s: SectionHeader) -> SSection {
    SSection { tag: s.tag@, offset: s.offset, size: s.size }
}

pub open spec fn sections_view(s: Seq<SectionHeader>) -> Seq<SSection> {
    Seq::new(s.len(), |i: int| section_view(s[i]))
}

/// The section record at byte `b`.
pub open spec fn section_at(data: Seq<u8>, b: int) -> SSection {
    SSection { tag: data.subrange(b, b + 4), offset: be32_at(data, b + 4), size: be32_at(data, b + 8) }
}

/// The `count` section records of a table starting at `start`.
pub open spec fn section_table(data: Seq<u8>, start: int, count: nat) -> Seq<SSection> {
    Seq::new(count, |i: int| section_at(data, start + i * 12))
}

/// Reads the section record at byte `b`.
pub fn read_section_header(data: &[u8], b: usize) -> (r: SectionHeader)
    requires
        b + 12 <= data@.len(),
    ensures
        section_view(r) == section_at(data@, b as int),
{
    let tag: [u8; 4] = [data[b], data[b + 1], data[b + 2], data[b + 3]];
    assert(tag@ =~= data@.subrange(b as int, b + 4));
    SectionHeader { tag, offset: u32_at(data, b + 4), size: u32_at(data, b + 8) }
}

/// Reads `count` section records of a table starting at `start`.
pub fn parse_section_headers(data: &[u8], count: usize, table_offset: usize) -> (r: Vec<
    SectionHeader,
>)
    requires
        table_offset + count * 12 <= data@.len(),
    ensures
        sections_view(r@) == section_table(data@, table_offset as int, count as nat),
{
    let mut out: Vec<SectionHeader> = Vec::new();
    let n = data.len();
    let mut i: usize = 0;
    while i < count
        invariant
            n == data@.len(),
            i <= count,
            table_offset + count * 12 <= data@.len(),
            sections_view(out@) =~= section_table(data@, table_offset as int, i as nat),
        decreases count - i,
    {
        assert(table_offset + i * 12 + 12 <= table_offset + count * 12) by (nonlinear_arith)
            requires
                i < count,
        ;
        let base = table_offset + i * SECTION_HEADER_SIZE;
        let s = read_section_header(data, base);
        let ghost old_out = out@;
        out.push(s);
        assert(sections_view(out@) =~= sections_view(old_out).push(section_view(s)));
        assert(section_table(data@, table_offset as int, (i + 1) as nat) =~= section_table(
            data@,
            table_offset as int,
            i as nat,
        ).push(section_at(data@, table_offset + i * 12)));
        i = i + 1;
    }
    out
}

/// The index of the first record tagged `tag`.
pub open spec fn first_tagged(secs: Seq<SSection>, tag: Seq<u8>, i: int) -> Option<int>
    decreases secs.len() - i,
{
    if i < 0 || i >= secs.len() {
        None
    } else if secs[i].tag == tag {
        Some(i)
    } else {
        first_tagged(secs, tag, i + 1)
    }
}

/// The first record tagged `tag`.
pub open spec fn spec_find_section(secs: Seq<SSection>, tag: Seq<u8>) -> Option<SSection> {
    match first_tagged(secs, tag, 0) {
        Some(i) => Some(secs[i]),
        None => None,
    }
}

pub fn find_section(sections: &Vec<SectionHeader>, tag: &[u8; 4]) -> (r: Option<SectionHeader>)
    ensures
        match spec_find_section(sections_view(sections@), tag@) {
            Some(s) => r matches Some(x) && section_view(x) == s,
            None => r is None,
        },
{
    let ghost secs = sections_view(sections@);
    let mut i: usize = 0;
    while i < sections.len()
        invariant
            i <= sections@.len(),
            secs == sections_view(sections@),
            first_tagged(secs, tag@, 0) == first_tagged(secs, tag@, i as int),
        decreases sections@.len() - i,
    {
        let s = sections[i];
        if starts_with_magic(&s.tag, tag) {
            assert(s.tag@.subrange(0, 4) =~= s.tag@);
            return Some(s);
        }
        assert(s.tag@.subrange(0, 4) =~= s.tag@);
        i = i + 1;
    }
    None
}

/// The bytes of a section, or `TooShort` when it runs past the end.
pub open spec fn spec_section_bytes(data: Seq<u8>, s: SSection) -> Result<Seq<u8>, PErr> {
    let end = s.offset + s.size;
    if end > data.len() {
        Err(PErr::TooShort { needed: end, available: data.len() as int })
    } else {
        Ok(data.subrange(s.offset as int, end))
    }
}

pub fn section_bytes<'a>(data: &'a [u8], section: &SectionHeader) -> (r: Result<&'a [u8], ParseError>)
    requires
        usize::MAX == u64::MAX,
    ensures
        match spec_section_bytes(data@, section_view(*section)) {
            Ok(b) => r matches Ok(x) && x@ == b,
            Err(e) => r matches Err(x) && super::error::error_is(x, e),
        },
{
    let start = section.offset as usize;
    let end = start + section.size as usize;
    if end > data.len() {
        return Err(ParseError::TooShort { needed: end, available: data.len() });
    }
    Ok(&data[start..end])
}

/// The bytes of an optional section: empty when absent; `TooShort` when it
/// runs past the end.
pub open spec fn spec_opt_section_bytes(data: Seq<u8>, s: Option<SSection>) -> Result<Seq<u8>, PErr> {
    match s {
        Some(s) => spec_section_bytes(data, s),
        None => Ok(Seq::empty()),
    }
}

pub fn opt_section_bytes<'a>(data: &'a [u8], section: Option<SectionHeader>) -> (r: Result<
    &'a [u8],
    ParseError,
>)
    requires
        usize::MAX == u64::MAX,
    ensures
        match spec_opt_section_bytes(
            data@,
            match section {
                Some(s) => Some(section_view(s)),
                None => None,
            },
        ) {
            Ok(b) => r matches Ok(x) && x@ == b,
            Err(e) => r matches Err(x) && super::error::error_is(x, e),
        },
{
    match section {
        Some(s) => section_bytes(data, &s),
        None => {
            let e: &[u8] = &[];
            assert(e@ =~= Seq::<u8>::empty());
            Ok(e)
        },
    }
}

/// The bytes of an optional section when it lies within the data; else empty.
pub open spec fn spec_section_or_empty(data: Seq<u8>, s: Option<SSection>) -> Seq<u8> {
    match s {
        Some(s) => if s.offset + s.size <= data.len() {
            data.subrange(s.offset as int, s.offset + s.size)
        } else {
            Seq::empty()
        },
        None => Seq::empty(),
    }
}

/// The bytes of an optional section when it lies within the data, if any.
pub open spec fn spec_section_get(data: Seq<u8>, s: Option<SSection>) -> Option<Seq<u8>> {
    match s {
        Some(s) => if s.offset + s.size <= data.len() {
            Some(data.subrange(s.offset as int, s.offset + s.size))
        } else {
            None
        },
        None => None,
    }
}

pub fn section_get<'a>(data: &'a [u8], section: Option<SectionHeader>) -> (r: Option<&'a [u8]>)
    requires
        usize::MAX == u64::MAX,
    ensures
        match spec_section_get(
            data@,
            match section {
                Some(s) => Some(section_view(s)),
                None => None,
            },
        ) {
            Some(b) => r matches Some(x) && x@ == b,
            None => r is None,
        },
{
    match section {
        Some(s) => {
            let start = s.offset as usize;
            let end = start + s.size as usize;
            if end > data.len() {
                None
            } else {
                Some(&data[start..end])
            }
        },
        None => None,
    }
}

// ---------------------------------------------------------------------------
// Display text
// ---------------------------------------------------------------------------

/// `std::str::from_utf8`: the text of `bytes` when they are valid UTF-8,
/// `None` otherwise.
#[verifier::external_body]
fn str_from_utf8(bytes: &[u8]) -> (r: Option<String>)
    ensures
        r is Some <==> vstd::utf8::valid_utf8(bytes@),
        r matches Some(s) ==> s@ == vstd::utf8::decode_utf8(bytes@),
{
    match std::str::from_utf8(bytes) {
        Ok(s) => Some(s.to_string()),
        Err(_) => None,
    }
}

/// The `Debug` text of a format version.
pub open spec fn format_version_text(f: FormatVersion) -> Seq<char> {
    match f {
        FormatVersion::V5 => "V5"@,
        FormatVersion::V8 => "V8"@,
        FormatVersion::Unknown(v) => "Unknown("@ + dec(v as nat) + ")"@,
    }
}

/// The one-line description of a header: the magic as text (`????` when it
/// is not UTF-8), the format version, the XUI version in hex, the size and
/// the section count.
pub open spec fn header_text(h: SHeader) -> Seq<char> {
    let tag = if vstd::utf8::valid_utf8(h.magic) {
        vstd::utf8::decode_utf8(h.magic)
    } else {
        "????"@
    };
    tag + " "@ + format_version_text(h.format_version) + " (xui=0x"@ + hex_pad(h.xui_version as nat, 4)
        + ", size="@ + dec(h.total_size as nat) + ", sections="@ + dec(h.section_count as nat) + ")"@
}

impl Header {
    /// The one-line description of the header (what the `Display` text of a
    /// header reads), such as `XUIB V5 (xui=0x000c, size=1234, sections=4)`.
    pub fn describe(&self) -> (r: String)
        ensures
            r@ == header_text(header_view(*self)),
    {
        let mut s = String::new();
        match str_from_utf8(&self.magic) {
            Some(tag) => push_str(&mut s, tag.as_str()),
            None => push_str(&mut s, "????"),
        }
        push_str(&mut s, " ");
        match self.format_version {
            FormatVersion::V5 => push_str(&mut s, "V5"),
            FormatVersion::V8 => push_str(&mut s, "V8"),
            FormatVersion::Unknown(v) => {
                push_str(&mut s, "Unknown(");
                push_dec(&mut s, v as u64);
                push_str(&mut s, ")");
            },
        }
        push_str(&mut s, " (xui=0x");
        push_hex_pad(&mut s, self.xui_version as u64, 4);
        push_str(&mut s, ", size=");
        push_dec(&mut s, self.total_size as u64);
        push_str(&mut s, ", sections=");
        push_dec(&mut s, self.section_count as u64);
        push_str(&mut s, ")");
        assert(s@ =~= header_text(header_view(*self)));
        s
    }
}

} // verus!
