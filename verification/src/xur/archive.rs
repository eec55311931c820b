//! XUIZ archive format parser (sans-io).
//!
//! XUIZ is a flat resource package containing one or more files (XUR binaries,
//! PNG images, XMA audio, XUS string tables, etc.). No compression, no
//! directory tree -- just a flat file table followed by concatenated data.
//!
//! ## Format (all multi-byte values big-endian)
//!
//! ```text
//! +0x00  "XUIZ"  magic (4 bytes)
//! +0x04  u32     version (observed: 1)
//! +0x08  u32     total_file_size
//! +0x0C  u32     reserved (0)
//! +0x10  u32     file_table_data_size
//! +0x14  u16     entry_count
//! +0x16  entries[entry_count]
//!          each: u32(resource_size) + u32(field2) + u8(name_len) + name
//!          name encoding depends on version: v1 = UTF-16BE (name_len*2 bytes),
//!          v3 = single-byte ASCII/Latin-1 (name_len bytes)
//! +vary  resource data (concatenated)
//! ```
//!
//! [`XuizArchive`] only parses the file table. It records each entry's byte
//! range but does not hold the underlying data; [`XuizArchive::read`] takes a
//! [`ReadAt`] data source.
use core::ops::Range;

use vstd::prelude::*;

use super::bytes::be16_at;
use super::bytes::be32_at;
use super::bytes::u16_at;
use super::bytes::u32_at;
use super::XUIB_MAGIC;
use super::XUIZ_MAGIC;
use crate::text::decode_unit;
use crate::text::dec;
use crate::text::hex_pad;
use crate::text::push_char;
use crate::text::push_dec;
use crate::text::push_hex_pad;
use crate::text::push_str;
use crate::text::str_ends_with;
use crate::text::str_eq;
use crate::text::unit_char;

verus! {

#[verifier::external_type_specification]
#[verifier::external_body]
pub struct ExIoError(std::io::Error);

/// `std::io::Error::new` with kind `UnexpectedEof` and the given message. The
/// error is opaque here: nothing is stated of it.
#[verifier::external_body]
pub(crate) fn eof_error(msg: &str) -> std::io::Error {
    std::io::Error::new(std::io::ErrorKind::UnexpectedEof, msg)
}

/// The `Display` text of an I/O error (`ToString::to_string`). Nothing is
/// stated of the text: the error is opaque here.
#[verifier::external_body]
pub(crate) fn io_error_text(e: &std::io::Error) -> String {
    e.to_string()
}

// ---------------------------------------------------------------------------
// Error
// ---------------------------------------------------------------------------

#[derive(Debug)]
pub enum ArchiveError {
    TooShort,
    BadMagic([u8; 4]),
    TruncatedEntry { index: usize },
    ReadError(std::io::Error),
}

/// The archive errors, as the parser's contract speaks of them.
pub enum SArchiveError {
    TooShort,
    BadMagic(Seq<u8>),
    TruncatedEntry(int),
}

pub open spec fn archive_error_is(e: ArchiveError, s: SArchiveError) -> bool {
    match s {
        SArchiveError::TooShort => e is TooShort,
        SArchiveError::BadMagic(m) => e matches ArchiveError::BadMagic(x) && x@ == m,
        SArchiveError::TruncatedEntry(i) => e matches ArchiveError::TruncatedEntry { index } && index
            == i,
    }
}

/// `{:02x?}` of four bytes: `[xx, xx, xx, xx]`.
pub open spec fn bytes_debug_hex(m: Seq<u8>) -> Seq<char> {
    "["@ + hex_pad(m[0] as nat, 2) + ", "@ + hex_pad(m[1] as nat, 2) + ", "@ + hex_pad(
        m[2] as nat,
        2,
    ) + ", "@ + hex_pad(m[3] as nat, 2) + "]"@
}

/// Appends `{:02x?}` of a four-byte magic.
pub fn push_bytes_debug_hex(out: &mut String, m: &[u8; 4])
    ensures
        final(out)@ == old(out)@ + bytes_debug_hex(m@),
{
    let ghost start = out@;
    push_str(out, "[");
    push_hex_pad(out, m[0] as u64, 2);
    push_str(out, ", ");
    push_hex_pad(out, m[1] as u64, 2);
    push_str(out, ", ");
    push_hex_pad(out, m[2] as u64, 2);
    push_str(out, ", ");
    push_hex_pad(out, m[3] as u64, 2);
    push_str(out, "]");
    assert(out@ =~= start + bytes_debug_hex(m@));
}

impl ArchiveError {
    /// The error's message (what `Display` shows).
    pub fn message(&self) -> (s: String)
        ensures
            match self {
                ArchiveError::TooShort => s@ == "data too short for XUIZ header"@,
                ArchiveError::BadMagic(m) => s@ == "bad magic: "@ + bytes_debug_hex(m@),
                ArchiveError::TruncatedEntry { index } => s@ == "truncated entry at index "@
                    + dec(*index as nat),
                ArchiveError::ReadError(_) => exists|t: Seq<char>| s@ == "read error: "@ + t,
            },
    {
        let mut s = String::new();
        assert(s@ + "data too short for XUIZ header"@ =~= "data too short for XUIZ header"@);
        assert(s@ + "bad magic: "@ =~= "bad magic: "@);
        assert(s@ + "truncated entry at index "@ =~= "truncated entry at index "@);
        assert(s@ + "read error: "@ =~= "read error: "@);
        match self {
            ArchiveError::TooShort => {
                push_str(&mut s, "data too short for XUIZ header");
            },
            ArchiveError::BadMagic(m) => {
                push_str(&mut s, "bad magic: ");
                push_bytes_debug_hex(&mut s, m);
            },
            ArchiveError::TruncatedEntry { index } => {
                push_str(&mut s, "truncated entry at index ");
                push_dec(&mut s, *index as u64);
            },
            ArchiveError::ReadError(e) => {
                push_str(&mut s, "read error: ");
                let t = io_error_text(e);
                push_str(&mut s, t.as_str());
            },
        }
        s
    }
}

impl From<std::io::Error> for ArchiveError {
    fn from(e: std::io::Error) -> (r: Self) {
        ArchiveError::ReadError(e)
    }
}

impl vstd::std_specs::convert::FromSpecImpl<std::io::Error> for ArchiveError {
    open spec fn obeys_from_spec() -> bool {
        true
    }

    open spec fn from_spec(e: std::io::Error) -> ArchiveError {
        ArchiveError::ReadError(e)
    }
}

// ---------------------------------------------------------------------------
// Sans-IO read trait
// ---------------------------------------------------------------------------

/// Trait for reading a byte range from the underlying data source.
/// Implementations might be: a memmap, a `&[u8]`, a `File` with seek+read, etc.
pub trait ReadAt {
    /// The bytes that the source holds.
    spec fn source_bytes(&self) -> Seq<u8>;

    /// Whether a read fails only where the range leaves the source.
    spec fn reads_exactly(&self) -> bool;

    /// The bytes in `range`.
    fn read_at(&self, range: Range<usize>) -> (r: std::io::Result<&[u8]>)
        ensures
            r matches Ok(s) ==> range.start <= range.end <= self.source_bytes().len() && s@
                == self.source_bytes().subrange(range.start as int, range.end as int),
            self.reads_exactly() ==> (r is Ok <==> range.start <= range.end
                <= self.source_bytes().len()),
    ;
}

/// Any contiguous byte slice is a source.
impl ReadAt for [u8] {
    open spec fn source_bytes(&self) -> Seq<u8> {
        self@
    }

    open spec fn reads_exactly(&self) -> bool {
        true
    }

    fn read_at(&self, range: Range<usize>) -> (r: std::io::Result<&[u8]>) {
        if range.start <= range.end && range.end <= self.len() {
            Ok(&self[range.start..range.end])
        } else {
            Err(eof_error("range out of bounds"))
        }
    }
}

// ---------------------------------------------------------------------------
// Archive entry
// ---------------------------------------------------------------------------

/// A single entry in the XUIZ file table.
#[derive(Debug)]
pub struct Entry {
    /// Filename (decoded from UTF-16BE or single-byte characters).
    pub name: String,
    /// Byte range within the archive data.
    pub range: Range<usize>,
}

/// An entry as the contracts speak of it.
pub struct SEntry {
    pub name: Seq<char>,
    pub start: int,
    pub end: int,
}

pub open spec fn entry_view(e: Entry) -> SEntry {
    SEntry { name: e.name@, start: e.range.start as int, end: e.range.end as int }
}

pub open spec fn entries_view(es: Seq<Entry>) -> Seq<SEntry> {
    Seq::new(es.len(), |i: int| entry_view(es[i]))
}

impl Clone for Entry {
    fn clone(&self) -> (r: Self)
        ensures
            r.name@ == self.name@,
            r.range == self.range,
    {
        Entry { name: self.name.clone(), range: self.range.start..self.range.end }
    }
}

impl Entry {
    /// Entry size in bytes.
    pub fn size(&self) -> (r: usize)
        ensures
            r == if self.range.start <= self.range.end {
                self.range.end - self.range.start
            } else {
                0
            },
    {
        if self.range.start <= self.range.end {
            self.range.end - self.range.start
        } else {
            0
        }
    }
}

// ---------------------------------------------------------------------------
// Archive
// ---------------------------------------------------------------------------

/// A parsed XUIZ archive file table.
#[derive(Debug, Clone)]
pub struct XuizArchive {
    pub version: u32,
    pub entries: Vec<Entry>,
}

pub const HEADER_SIZE: usize = 0x16;

/// The `j`-th character of an entry name whose encoded form starts at `pos`.
pub open spec fn name_char(data: Seq<u8>, pos: int, wide: bool, j: int) -> char {
    if wide {
        unit_char(be16_at(data, pos + 2 * j))
    } else {
        unit_char(data[pos + j] as u16)
    }
}

/// The decoded name of `n` characters whose encoded form starts at `pos`.
pub open spec fn entry_name(data: Seq<u8>, pos: int, wide: bool, n: nat) -> Seq<char> {
    Seq::new(n, |j: int| name_char(data, pos, wide, j))
}

/// The file table from entry `i` on: entries `i..count`, whose table records
/// start at `pos` and whose data starts at `off`; or the index of the first
/// truncated record.
pub open spec fn table_from(
    data: Seq<u8>,
    wide: bool,
    i: nat,
    count: nat,
    pos: int,
    off: int,
) -> Result<Seq<SEntry>, int>
    decreases count - i,
{
    if i >= count {
        Ok(Seq::empty())
    } else if pos + 9 > data.len() {
        Err(i as int)
    } else {
        let size = be32_at(data, pos);
        let n = data[pos + 8];
        let name_pos = pos + 9;
        let name_bytes = if wide {
            2 * n
        } else {
            n as int
        };
        if name_pos + name_bytes > data.len() {
            Err(i as int)
        } else {
            let e = SEntry {
                name: entry_name(data, name_pos, wide, n as nat),
                start: off,
                end: off + size,
            };
            match table_from(data, wide, i + 1, count, name_pos + name_bytes, off + size) {
                Ok(rest) => Ok(seq![e] + rest),
                Err(k) => Err(k),
            }
        }
    }
}

/// The parsed archive: its version and entries, or the error.
pub open spec fn spec_archive(data: Seq<u8>) -> Result<(u32, Seq<SEntry>), SArchiveError> {
    if data.len() < HEADER_SIZE {
        Err(SArchiveError::TooShort)
    } else if data.subrange(0, 4) != XUIZ_MAGIC@ {
        Err(SArchiveError::BadMagic(data.subrange(0, 4)))
    } else {
        let version = be32_at(data, 4);
        let table_size = be32_at(data, 0x10);
        let count = be16_at(data, 0x14);
        match table_from(
            data,
            version == 1,
            0,
            count as nat,
            HEADER_SIZE as int,
            HEADER_SIZE + table_size,
        ) {
            Ok(es) => Ok((version, es)),
            Err(i) => Err(SArchiveError::TruncatedEntry(i)),
        }
    }
}

pub open spec fn prepend(pre: Seq<SEntry>, r: Result<Seq<SEntry>, int>) -> Result<
    Seq<SEntry>,
    int,
> {
    match r {
        Ok(rest) => Ok(pre + rest),
        Err(k) => Err(k),
    }
}

/// Whether the first four bytes of `s` are `m`.
pub fn starts_with_magic(s: &[u8], m: &[u8; 4]) -> (r: bool)
    ensures
        r == (s@.len() >= 4 && s@.subrange(0, 4) == m@),
{
    if s.len() < 4 {
        return false;
    }
    let r = s[0] == m[0] && s[1] == m[1] && s[2] == m[2] && s[3] == m[3];
    proof {
        if r {
            assert(s@.subrange(0, 4) =~= m@);
        } else {
            if s@.subrange(0, 4) == m@ {
                assert(s@.subrange(0, 4)[0] == m@[0]);
                assert(s@.subrange(0, 4)[1] == m@[1]);
                assert(s@.subrange(0, 4)[2] == m@[2]);
                assert(s@.subrange(0, 4)[3] == m@[3]);
            }
        }
    }
    r
}

/// Whether `bytes` hold a XUIB binary (by magic).
pub open spec fn is_xuib_bytes(bytes: Seq<u8>) -> bool {
    bytes.len() >= 4 && bytes.subrange(0, 4) == XUIB_MAGIC@
}

/// Whether entry `e` lies in `src` and its bytes start with the XUIB magic.
pub open spec fn entry_is_xuib(src: Seq<u8>, e: Entry) -> bool {
    e.range.start <= e.range.end <= src.len() && is_xuib_bytes(
        src.subrange(e.range.start as int, e.range.end as int),
    )
}

pub open spec fn ends_with_xur(name: Seq<char>) -> bool {
    ".xur"@.len() <= name.len() && name.subrange(name.len() - ".xur"@.len(), name.len() as int)
        == ".xur"@
}

/// The index of the first entry from `i` on that holds a XUIB binary and,
/// when `xur_only`, whose name ends in `.xur`.
pub open spec fn first_xuib_from(src: Seq<u8>, es: Seq<Entry>, xur_only: bool, i: int) -> Option<
    int,
>
    decreases es.len() - i,
{
    if i >= es.len() || i < 0 {
        None
    } else if (!xur_only || ends_with_xur(es[i].name@)) && entry_is_xuib(src, es[i]) {
        Some(i)
    } else {
        first_xuib_from(src, es, xur_only, i + 1)
    }
}

/// The entry that `find_xuib` picks: the first `.xur` entry holding a XUIB
/// binary, else the first entry holding one.
pub open spec fn chosen_xuib(src: Seq<u8>, es: Seq<Entry>) -> Option<int> {
    match first_xuib_from(src, es, true, 0) {
        Some(i) => Some(i),
        None => first_xuib_from(src, es, false, 0),
    }
}

/// The index of the first entry named `name`.
pub open spec fn first_named(es: Seq<Entry>, name: Seq<char>, i: int) -> Option<int>
    decreases es.len() - i,
{
    if i >= es.len() || i < 0 {
        None
    } else if es[i].name@ == name {
        Some(i)
    } else {
        first_named(es, name, i + 1)
    }
}

impl XuizArchive {
    /// Parse the XUIZ file table from the archive header bytes.
    ///
    /// `data` must contain at least the full header + file table. It does NOT
    /// need to contain the resource data -- only the table is parsed here.
    pub fn parse(data: &[u8]) -> (r: Result<Self, ArchiveError>)
        requires
            usize::MAX == u64::MAX,
        ensures
            match spec_archive(data@) {
                Ok((v, es)) => r matches Ok(a) && a.version == v && entries_view(a.entries@) == es,
                Err(e) => r matches Err(x) && archive_error_is(x, e),
            },
    {
        let len = data.len();
        if len < HEADER_SIZE {
            return Err(ArchiveError::TooShort);
        }
        let magic: [u8; 4] = [data[0], data[1], data[2], data[3]];
        proof {
            assert(magic@ =~= data@.subrange(0, 4));
        }
        if !starts_with_magic(data, XUIZ_MAGIC) {
            return Err(ArchiveError::BadMagic(magic));
        }
        let version = u32_at(data, 4);
        let table_data_size = u32_at(data, 0x10) as usize;
        let entry_count = u16_at(data, 0x14) as usize;

        // v1 stores entry names as UTF-16BE (2 bytes/char); v3 stores them as
        // single-byte ASCII/Latin-1. Branch on version so both decode correctly.
        let wide = version == 1;

        let resource_base = HEADER_SIZE + table_data_size;

        let mut entries: Vec<Entry> = Vec::new();
        let mut pos = HEADER_SIZE;
        let mut resource_offset = resource_base;
        let ghost whole = table_from(
            data@,
            wide,
            0,
            entry_count as nat,
            HEADER_SIZE as int,
            resource_base as int,
        );
        assert(entries_view(entries@) =~= Seq::<SEntry>::empty());
        assert(spec_archive(data@) == match whole {
            Ok(es) => Ok((version, es)),
            Err(k) => Err(SArchiveError::TruncatedEntry(k)),
        });
        assert(prepend(Seq::empty(), whole) =~= whole) by {
            if let Ok(rest) = whole {
                assert(Seq::<SEntry>::empty() + rest =~= rest);
            }
        }

        let mut i: usize = 0;
        while i < entry_count
            invariant
                usize::MAX == u64::MAX,
                len == data@.len(),
                i <= entry_count,
                entry_count <= 0xffff,
                HEADER_SIZE <= pos <= len,
                resource_offset <= 0x16 + 0x1_0000_0000 + i * 0x1_0000_0000,
                wide == (version == 1),
                entries@.len() == i,
                spec_archive(data@) == match whole {
                    Ok(es) => Ok((version, es)),
                    Err(k) => Err(SArchiveError::TruncatedEntry(k)),
                },
                whole == prepend(
                    entries_view(entries@),
                    table_from(data@, wide, i as nat, entry_count as nat, pos as int, resource_offset as int),
                ),
            decreases entry_count - i,
        {
            if len - pos < 9 {
                return Err(ArchiveError::TruncatedEntry { index: i });
            }
            let size = u32_at(data, pos) as usize;
            // data[pos+4..pos+8] is field2 (flags/checksum, unused)
            let name_chars = data[pos + 8] as usize;
            pos = pos + 9;

            let name_bytes = if wide {
                name_chars * 2
            } else {
                name_chars
            };
            if len - pos < name_bytes {
                return Err(ArchiveError::TruncatedEntry { index: i });
            }

            let mut name = String::new();
            let mut j: usize = 0;
            while j < name_chars
                invariant
                    len == data@.len(),
                    j <= name_chars,
                    name_bytes == if wide { name_chars * 2 } else { name_chars as int },
                    pos + name_bytes <= len,
                    name@ =~= entry_name(data@, pos as int, wide, name_chars as nat).take(j as int),
                decreases name_chars - j,
            {
                let cu = if wide {
                    u16_at(data, pos + j * 2)
                } else {
                    data[pos + j] as u16
                };
                push_char(&mut name, decode_unit(cu));
                j = j + 1;
            }
            assert(name@ =~= entry_name(data@, pos as int, wide, name_chars as nat));
            let ghost e = SEntry {
                name: entry_name(data@, pos as int, wide, name_chars as nat),
                start: resource_offset as int,
                end: resource_offset + size,
            };
            pos = pos + name_bytes;

            let ghost old_entries = entries@;
            entries.push(Entry { name, range: resource_offset..resource_offset + size });
            proof {
                assert(entries_view(entries@) =~= entries_view(old_entries).push(e));
                let r2 = table_from(
                    data@,
                    wide,
                    (i + 1) as nat,
                    entry_count as nat,
                    pos as int,
                    resource_offset + size,
                );
                if let Ok(rest) = r2 {
                    assert(entries_view(old_entries) + (seq![e] + rest) =~= entries_view(
                        old_entries,
                    ).push(e) + rest);
                }
            }
            resource_offset = resource_offset + size;
            i = i + 1;
        }
        proof {
            assert(entries_view(entries@) + Seq::<SEntry>::empty() =~= entries_view(entries@));
        }
        Ok(XuizArchive { version, entries })
    }

    /// Read an entry's raw bytes from the given data source. A byte slice
    /// fails with an `UnexpectedEof` I/O error; the contract does not say so,
    /// since an I/O error is opaque here.
    pub fn read<'a, S: ReadAt + ?Sized>(&self, source: &'a S, entry: &Entry) -> (r:
        std::io::Result<&'a [u8]>)
        ensures
            r matches Ok(s) ==> entry.range.start <= entry.range.end
                <= source.source_bytes().len() && s@ == source.source_bytes().subrange(
                entry.range.start as int,
                entry.range.end as int,
            ),
            source.reads_exactly() ==> (r is Ok <==> entry.range.start <= entry.range.end
                <= source.source_bytes().len()),
    {
        source.read_at(entry.range.start..entry.range.end)
    }

    /// Look up an entry by name.
    pub fn find(&self, name: &str) -> (r: Option<&Entry>)
        ensures
            match first_named(self.entries@, name@, 0) {
                Some(i) => r == Some(&self.entries@[i]),
                None => r is None,
            },
    {
        let mut i: usize = 0;
        while i < self.entries.len()
            invariant
                i <= self.entries@.len(),
                first_named(self.entries@, name@, 0) == first_named(self.entries@, name@, i as int),
            decreases self.entries@.len() - i,
        {
            if str_eq(self.entries[i].name.as_str(), name) {
                return Some(&self.entries[i]);
            }
            i = i + 1;
        }
        None
    }

    /// Find the first entry that contains a XUIB binary (by extension or magic).
    pub fn find_xuib<S: ReadAt + ?Sized>(&self, source: &S) -> (r: Option<&Entry>)
        ensures
            r matches Some(e) ==> exists|k: int|
                0 <= k < self.entries@.len() && e == &self.entries@[k] && entry_is_xuib(
                    source.source_bytes(),
                    self.entries@[k],
                ),
            source.reads_exactly() ==> match chosen_xuib(source.source_bytes(), self.entries@) {
                Some(k) => r == Some(&self.entries@[k]),
                None => r is None,
            },
    {
        let ghost src = source.source_bytes();
        // Prefer .xur extension
        let mut i: usize = 0;
        while i < self.entries.len()
            invariant
                i <= self.entries@.len(),
                src == source.source_bytes(),
                source.reads_exactly() ==> first_xuib_from(src, self.entries@, true, 0)
                    == first_xuib_from(src, self.entries@, true, i as int),
            decreases self.entries@.len() - i,
        {
            let entry = &self.entries[i];
            if str_ends_with(entry.name.as_str(), ".xur") {
                if let Ok(data) = self.read(source, entry) {
                    if starts_with_magic(data, XUIB_MAGIC) {
                        return Some(entry);
                    }
                }
            }
            i = i + 1;
        }
        // Fallback: any entry starting with XUIB magic
        let mut i: usize = 0;
        while i < self.entries.len()
            invariant
                i <= self.entries@.len(),
                src == source.source_bytes(),
                source.reads_exactly() ==> first_xuib_from(src, self.entries@, true, 0) is None,
                source.reads_exactly() ==> first_xuib_from(src, self.entries@, false, 0)
                    == first_xuib_from(src, self.entries@, false, i as int),
            decreases self.entries@.len() - i,
        {
            let entry = &self.entries[i];
            if let Ok(data) = self.read(source, entry) {
                if starts_with_magic(data, XUIB_MAGIC) {
                    return Some(entry);
                }
            }
            i = i + 1;
        }
        None
    }
}

// ---------------------------------------------------------------------------
// Convenience helpers
// ---------------------------------------------------------------------------

/// Check if data starts with XUIZ magic.
pub fn is_xuiz(data: &[u8]) -> (r: bool)
    ensures
        r == (data@.len() >= 4 && data@.subrange(0, 4) == XUIZ_MAGIC@),
{
    starts_with_magic(data, XUIZ_MAGIC)
}

/// Check if data starts with XUIB magic.
pub fn is_xuib(data: &[u8]) -> (r: bool)
    ensures
        r == is_xuib_bytes(data@),
{
    starts_with_magic(data, XUIB_MAGIC)
}

// ---------------------------------------------------------------------------
// Output names of entries
// ---------------------------------------------------------------------------

/// `s` from `i` on, with every occurrence of `pat` (found left to right, not
/// overlapping) replaced by `rep`.
pub open spec fn replaced_from(s: Seq<char>, pat: Seq<char>, rep: Seq<char>, i: int) -> Seq<char>
    decreases s.len() - i,
{
    if i < 0 || i >= s.len() {
        Seq::empty()
    } else if pat.len() > 0 && i + pat.len() <= s.len() && s.subrange(i, i + pat.len()) == pat {
        rep + replaced_from(s, pat, rep, i + pat.len())
    } else {
        seq![s[i]] + replaced_from(s, pat, rep, i + 1)
    }
}

/// `s` with every occurrence of `pat` replaced by `rep` (`str::replace`).
pub open spec fn replaced(s: Seq<char>, pat: Seq<char>, rep: Seq<char>) -> Seq<char> {
    replaced_from(s, pat, rep, 0)
}

/// Replaces every occurrence of `pat` (left to right, not overlapping) by
/// `rep`.
pub fn replace_all(s: &str, pat: &str, rep: &str) -> (r: String)
    ensures
        r@ == replaced(s@, pat@, rep@),
{
    let cs = crate::text::chars_of(s);
    let ps = crate::text::chars_of(pat);
    let n = cs.len();
    let m = ps.len();
    let mut out = String::new();
    let ghost whole = replaced(s@, pat@, rep@);
    let mut i: usize = 0;
    assert(whole == out@ + replaced_from(s@, pat@, rep@, 0));
    while i < n
        invariant
            i <= n,
            n == s@.len(),
            m == pat@.len(),
            cs@ == s@,
            ps@ == pat@,
            whole == replaced(s@, pat@, rep@),
            whole == out@ + replaced_from(s@, pat@, rep@, i as int),
        decreases n - i,
    {
        let mut k: usize = 0;
        if m > 0 && m <= n && i <= n - m {
            while k < m && cs[i + k] == ps[k]
                invariant
                    k <= m,
                    m <= n,
                    i + m <= n,
                    m == pat@.len(),
                    n == s@.len(),
                    cs@ == s@,
                    ps@ == pat@,
                    forall|j: int| 0 <= j < k ==> s@[i + j] == pat@[j],
                decreases m - k,
            {
                k = k + 1;
            }
        }
        let matches = m > 0 && m <= n && i <= n - m && k == m;
        let ghost rest = replaced_from(s@, pat@, rep@, i as int);
        if matches {
            assert(s@.subrange(i as int, i + m) =~= pat@);
            push_str(&mut out, rep);
            proof {
                assert(whole =~= out@ + replaced_from(s@, pat@, rep@, i + m));
            }
            i = i + m;
        } else {
            proof {
                if m > 0 && i + m <= n && s@.subrange(i as int, i + m) == pat@ {
                    assert(s@.subrange(i as int, i + m)[k as int] == s@[i + k]);
                }
            }
            crate::text::push_char(&mut out, cs[i]);
            proof {
                assert(whole =~= out@ + replaced_from(s@, pat@, rep@, i + 1));
            }
            i = i + 1;
        }
    }
    assert(whole =~= out@);
    out
}

/// Whether an entry name is that of a XUR resource (it ends in `.xur`).
pub fn is_xur_name(name: &str) -> (r: bool)
    ensures
        r == ends_with_xur(name@),
{
    str_ends_with(name, ".xur")
}

/// The path under which an entry is written: its `\` separators replaced by
/// `separator`, and for a XUR resource every `.xur` by `.xui`.
pub open spec fn output_path(name: Seq<char>, separator: Seq<char>) -> Seq<char> {
    let normalized = replaced(name, "\\"@, separator);
    if ends_with_xur(name) {
        replaced(normalized, ".xur"@, ".xui"@)
    } else {
        normalized
    }
}

/// The path under which an entry is written (see `output_path`).
pub fn entry_output_path(name: &str, separator: &str) -> (r: String)
    ensures
        r@ == output_path(name@, separator@),
{
    let normalized = replace_all(name, "\\", separator);
    if is_xur_name(name) {
        replace_all(normalized.as_str(), ".xur", ".xui")
    } else {
        normalized
    }
}

/// The number of entries of `es` from `i` on that are XUR resources.
pub open spec fn xur_count_from(es: Seq<Entry>, i: int) -> nat
    decreases es.len() - i,
{
    if i < 0 || i >= es.len() {
        0
    } else {
        (if ends_with_xur(es[i].name@) {
            1nat
        } else {
            0nat
        }) + xur_count_from(es, i + 1)
    }
}

impl XuizArchive {
    /// The number of XUR resources in the archive.
    pub fn xur_count(&self) -> (n: usize)
        ensures
            n == xur_count_from(self.entries@, 0),
    {
        let mut n: usize = 0;
        let mut i: usize = self.entries.len();
        while i > 0
            invariant
                i <= self.entries@.len() <= usize::MAX,
                n == xur_count_from(self.entries@, i as int),
                n <= self.entries@.len() - i,
            decreases i,
        {
            i = i - 1;
            if is_xur_name(self.entries[i].name.as_str()) {
                n = n + 1;
            }
        }
        n
    }
}

// ---------------------------------------------------------------------------
// Laws
// ---------------------------------------------------------------------------

proof fn lemma_table_contiguous(
    data: Seq<u8>,
    wide: bool,
    i: nat,
    count: nat,
    pos: int,
    off: int,
)
    requires
        i <= count,
        table_from(data, wide, i, count, pos, off) is Ok,
    ensures
        ({
            let es = table_from(data, wide, i, count, pos, off)->Ok_0;
            &&& es.len() == count - i
            &&& es.len() > 0 ==> es[0].start == off
            &&& forall|k: int| 0 <= k < es.len() - 1 ==> #[trigger] es[k].end == es[k + 1].start
            &&& forall|k: int| 0 <= k < es.len() ==> #[trigger] es[k].start <= es[k].end
        }),
    decreases count - i,
{
    if i < count {
        let size = be32_at(data, pos);
        let n = data[pos + 8];
        let name_pos = pos + 9;
        let name_bytes = if wide {
            2 * n
        } else {
            n as int
        };
        lemma_table_contiguous(data, wide, i + 1, count, name_pos + name_bytes, off + size);
        let rest = table_from(data, wide, i + 1, count, name_pos + name_bytes, off + size)->Ok_0;
        let es = table_from(data, wide, i, count, pos, off)->Ok_0;
        let e = SEntry {
            name: entry_name(data, name_pos, wide, n as nat),
            start: off,
            end: off + size,
        };
        assert(es == seq![e] + rest);
        assert(es[0] == e);
        assert forall|k: int| 0 <= k < es.len() - 1 implies #[trigger] es[k].end == es[k + 1].start by {
            assert(es[k + 1] == rest[k]);
            if k > 0 {
                assert(es[k] == rest[k - 1]);
            }
        }
        assert forall|k: int| 0 <= k < es.len() implies #[trigger] es[k].start <= es[k].end by {
            if k > 0 {
                assert(es[k] == rest[k - 1]);
            }
        }
    }
}

/// The resources of an archive lie back to back after the file table: the
/// first starts right after the table, each one starts where the one before
/// it ends, and there is one entry per record of the table.
pub proof fn lemma_entries_back_to_back(data: Seq<u8>)
    requires
        spec_archive(data) is Ok,
    ensures
        ({
            let es = spec_archive(data)->Ok_0.1;
            &&& es.len() == be16_at(data, 0x14)
            &&& es.len() > 0 ==> es[0].start == HEADER_SIZE + be32_at(data, 0x10)
            &&& forall|k: int| 0 <= k < es.len() - 1 ==> #[trigger] es[k].end == es[k + 1].start
            &&& forall|k: int| 0 <= k < es.len() ==> #[trigger] es[k].start <= es[k].end
        }),
{
    let version = be32_at(data, 4);
    lemma_table_contiguous(
        data,
        version == 1,
        0,
        be16_at(data, 0x14) as nat,
        HEADER_SIZE as int,
        HEADER_SIZE + be32_at(data, 0x10),
    );
}

proof fn lemma_table_prefix(
    data: Seq<u8>,
    more: Seq<u8>,
    wide: bool,
    i: nat,
    count: nat,
    pos: int,
    off: int,
)
    requires
        table_from(data, wide, i, count, pos, off) is Ok,
        0 <= pos,
    ensures
        table_from(data + more, wide, i, count, pos, off) == table_from(data, wide, i, count, pos, off),
    decreases count - i,
{
    let d2 = data + more;
    if i < count {
        let n = data[pos + 8];
        assert(d2[pos + 8] == n);
        let name_pos = pos + 9;
        let name_bytes = if wide {
            2 * n
        } else {
            n as int
        };
        assert(be32_at(d2, pos) == be32_at(data, pos));
        assert(entry_name(d2, name_pos, wide, n as nat) =~= entry_name(data, name_pos, wide, n as nat))
            by {
            assert forall|j: int| 0 <= j < n implies name_char(d2, name_pos, wide, j) == name_char(
                data,
                name_pos,
                wide,
                j,
            ) by {
                if wide {
                    assert(d2[name_pos + 2 * j] == data[name_pos + 2 * j]);
                    assert(d2[name_pos + 2 * j + 1] == data[name_pos + 2 * j + 1]);
                } else {
                    assert(d2[name_pos + j] == data[name_pos + j]);
                }
            }
        }
        lemma_table_prefix(
            data,
            more,
            wide,
            i + 1,
            count,
            name_pos + name_bytes,
            off + be32_at(data, pos),
        );
    }
}

/// Parsing reads only the header and the file table: bytes after them (the
/// resource data) do not change the result.
pub proof fn lemma_parse_reads_table_only(data: Seq<u8>, more: Seq<u8>)
    requires
        spec_archive(data) is Ok,
    ensures
        spec_archive(data + more) == spec_archive(data),
{
    let d2 = data + more;
    assert(d2.subrange(0, 4) =~= data.subrange(0, 4));
    assert(be32_at(d2, 4) == be32_at(data, 4));
    assert(be32_at(d2, 0x10) == be32_at(data, 0x10));
    assert(be16_at(d2, 0x14) == be16_at(data, 0x14));
    let version = be32_at(data, 4);
    lemma_table_prefix(
        data,
        more,
        version == 1,
        0,
        be16_at(data, 0x14) as nat,
        HEADER_SIZE as int,
        HEADER_SIZE + be32_at(data, 0x10),
    );
}

/// No data is both a XUIZ archive and a XUIB binary.
pub proof fn lemma_xuiz_xuib_exclusive(data: Seq<u8>)
    ensures
        !(is_xuib_bytes(data) && data.len() >= 4 && data.subrange(0, 4) == XUIZ_MAGIC@),
{
    if is_xuib_bytes(data) && data.len() >= 4 && data.subrange(0, 4) == XUIZ_MAGIC@ {
        assert(XUIB_MAGIC@[3] != XUIZ_MAGIC@[3]);
    }
}

/// Where record `k` of a table of one-byte names starts, the first record
/// starting at `pos`: each record is a `u32` size, four more bytes, a name
/// length `n` and `n` name bytes.
pub open spec fn narrow_record_pos(data: Seq<u8>, pos: int, k: nat) -> int
    decreases k,
{
    if k == 0 {
        pos
    } else {
        narrow_record_pos(data, pos + 9 + data[pos + 8], (k - 1) as nat)
    }
}

/// Record `e` decoded from a one-byte-name record at `r`: its name has as
/// many characters as the length byte at `r + 8` says, each the byte at its
/// place after it, and it spans as many bytes as the size at `r` says.
pub open spec fn narrow_entry(data: Seq<u8>, r: int, e: SEntry) -> bool {
    &&& 0 <= r && r + 9 <= data.len()
    &&& e.name.len() == data[r + 8]
    &&& r + 9 + data[r + 8] <= data.len()
    &&& forall|j: int| 0 <= j < e.name.len() ==> #[trigger] e.name[j] as u32 == data[r + 9 + j] as u32
    &&& e.end - e.start == be32_at(data, r)
}

proof fn lemma_table_narrow(data: Seq<u8>, i: nat, count: nat, pos: int, off: int)
    requires
        0 <= pos,
    ensures
        table_from(data, false, i, count, pos, off) matches Ok(es) ==> forall|k: int|
            0 <= k < es.len() ==> narrow_entry(data, narrow_record_pos(data, pos, k as nat), #[trigger] es[k]),
    decreases count - i,
{
    if i < count && pos + 9 <= data.len() {
        let n = data[pos + 8];
        let size = be32_at(data, pos);
        let next = pos + 9 + n;
        if next <= data.len() {
            lemma_table_narrow(data, i + 1, count, next, off + size);
            if let Ok(es) = table_from(data, false, i, count, pos, off) {
                let rest = table_from(data, false, i + 1, count, next, off + size)->Ok_0;
                let e = es[0];
                assert(e.name == entry_name(data, pos + 9, false, n as nat));
                assert forall|j: int| 0 <= j < e.name.len() implies #[trigger] e.name[j] as u32
                    == data[pos + 9 + j] as u32 by {
                    let b = data[pos + 9 + j];
                    assert(e.name[j] == name_char(data, pos + 9, false, j));
                    assert((b as char) as u32 == b as u32);
                }
                assert(narrow_entry(data, pos, e));
                assert forall|k: int| 0 <= k < es.len() implies narrow_entry(
                    data,
                    narrow_record_pos(data, pos, k as nat),
                    #[trigger] es[k],
                ) by {
                    if k > 0 {
                        assert(es[k] == rest[k - 1]);
                        assert(narrow_record_pos(data, pos, k as nat) == narrow_record_pos(
                            data,
                            next,
                            (k - 1) as nat,
                        ));
                    }
                }
            }
        }
    }
}

/// For every archive version other than 1, entry names are one byte per
/// character: each record's name has as many characters as its length byte
/// says, each the byte at its place, and the next record starts right after
/// them; each entry spans as many bytes as its record's size says.
pub proof fn lemma_narrow_names(data: Seq<u8>)
    ensures
        spec_archive(data) matches Ok((version, es)) ==> (version != 1 ==> forall|k: int|
            0 <= k < es.len() ==> narrow_entry(
                data,
                narrow_record_pos(data, HEADER_SIZE as int, k as nat),
                #[trigger] es[k],
            )),
{
    if data.len() >= HEADER_SIZE && data.subrange(0, 4) == XUIZ_MAGIC@ && be32_at(data, 4) != 1 {
        lemma_table_narrow(
            data,
            0,
            be16_at(data, 0x14) as nat,
            HEADER_SIZE as int,
            HEADER_SIZE + be32_at(data, 0x10),
        );
    }
}

/// Where record `k` of a table of UTF-16 names starts, the first record
/// starting at `pos`: each record is a `u32` size, four more bytes, a name
/// length `n` and `2n` name bytes.
pub open spec fn wide_record_pos(data: Seq<u8>, pos: int, k: nat) -> int
    decreases k,
{
    if k == 0 {
        pos
    } else {
        wide_record_pos(data, pos + 9 + 2 * data[pos + 8], (k - 1) as nat)
    }
}

/// Record `e` decoded from a UTF-16 record at `r`: its name has as many
/// characters as the length byte says, each the big-endian code unit at its
/// place (a surrogate unit becomes U+FFFD), and it spans as many bytes as the
/// size at `r` says.
pub open spec fn wide_entry(data: Seq<u8>, r: int, e: SEntry) -> bool {
    &&& 0 <= r && r + 9 <= data.len()
    &&& e.name.len() == data[r + 8]
    &&& r + 9 + 2 * data[r + 8] <= data.len()
    &&& forall|j: int|
        0 <= j < e.name.len() ==> {
            let unit = data[r + 9 + 2 * j] * 256 + data[r + 10 + 2 * j];
            if unit < 0xD800 || unit >= 0xE000 {
                #[trigger] e.name[j] as u32 == unit
            } else {
                e.name[j] == '\u{FFFD}'
            }
        }
    &&& e.end - e.start == be32_at(data, r)
}

proof fn lemma_table_wide(data: Seq<u8>, i: nat, count: nat, pos: int, off: int)
    requires
        0 <= pos,
    ensures
        table_from(data, true, i, count, pos, off) matches Ok(es) ==> forall|k: int|
            0 <= k < es.len() ==> wide_entry(data, wide_record_pos(data, pos, k as nat), #[trigger] es[k]),
    decreases count - i,
{
    if i < count && pos + 9 <= data.len() {
        let n = data[pos + 8];
        let size = be32_at(data, pos);
        let next = pos + 9 + 2 * n;
        if next <= data.len() {
            lemma_table_wide(data, i + 1, count, next, off + size);
            if let Ok(es) = table_from(data, true, i, count, pos, off) {
                let rest = table_from(data, true, i + 1, count, next, off + size)->Ok_0;
                let e = es[0];
                assert(e.name == entry_name(data, pos + 9, true, n as nat));
                assert forall|j: int| 0 <= j < e.name.len() implies {
                    let unit = data[pos + 9 + 2 * j] * 256 + data[pos + 10 + 2 * j];
                    if unit < 0xD800 || unit >= 0xE000 {
                        #[trigger] e.name[j] as u32 == unit
                    } else {
                        e.name[j] == '\u{FFFD}'
                    }
                } by {
                    assert(e.name[j] == name_char(data, pos + 9, true, j));
                    let unit = data[pos + 9 + 2 * j] * 256 + data[pos + 10 + 2 * j];
                    assert(be16_at(data, pos + 9 + 2 * j) as int == unit);
                    assert(unit < 0x1_0000);
                    if unit < 0xD800 || unit >= 0xE000 {
                        assert(((unit as u32) as char) as u32 == unit as u32);
                    }
                }
                assert(wide_entry(data, pos, e));
                assert forall|k: int| 0 <= k < es.len() implies wide_entry(
                    data,
                    wide_record_pos(data, pos, k as nat),
                    #[trigger] es[k],
                ) by {
                    if k > 0 {
                        assert(es[k] == rest[k - 1]);
                        assert(wide_record_pos(data, pos, k as nat) == wide_record_pos(
                            data,
                            next,
                            (k - 1) as nat,
                        ));
                    }
                }
            }
        }
    }
}

/// In a version 1 archive, entry names are UTF-16BE, two bytes per
/// character: each record's name has as many characters as its length byte
/// says, each the code unit at its place, and the next record starts right
/// after them.
pub proof fn lemma_wide_names(data: Seq<u8>)
    ensures
        spec_archive(data) matches Ok((version, es)) ==> (version == 1 ==> forall|k: int|
            0 <= k < es.len() ==> wide_entry(
                data,
                wide_record_pos(data, HEADER_SIZE as int, k as nat),
                #[trigger] es[k],
            )),
{
    if data.len() >= HEADER_SIZE && data.subrange(0, 4) == XUIZ_MAGIC@ && be32_at(data, 4) == 1 {
        lemma_table_wide(
            data,
            0,
            be16_at(data, 0x14) as nat,
            HEADER_SIZE as int,
            HEADER_SIZE + be32_at(data, 0x10),
        );
    }
}

} // verus!
