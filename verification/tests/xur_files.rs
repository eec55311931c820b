use exui::xur::archive::is_xuib;
use exui::xur::archive::is_xuiz;
use exui::xur::archive::entry_output_path;
use exui::xur::archive::is_xur_name;
use exui::xur::archive::replace_all;
use exui::xur::archive::ArchiveError;
use exui::xur::archive::ReadAt;
use exui::xur::archive::XuizArchive;
use exui::xur::FormatVersion;
use exui::xur::ParseError;
use exui::xur::PropType;
use exui::xur::PropertyValue;
use exui::xur::Xur;

fn be16(v: u16) -> [u8; 2] {
    v.to_be_bytes()
}

fn be32(v: u32) -> [u8; 4] {
    v.to_be_bytes()
}

fn utf16_string(s: &str) -> Vec<u8> {
    let units: Vec<u16> = s.encode_utf16().collect();
    let mut out = Vec::new();
    out.extend_from_slice(&be16(units.len() as u16));
    for u in units {
        out.extend_from_slice(&be16(u));
    }
    out
}

/// A v5 XUIB: strings XuiCanvas, Root, MyWidget; a root XuiCanvas with Id,
/// Width and Position and one MyWidget child; one vector (1, 2, 3).
fn v5_scene() -> Vec<u8> {
    let mut strn = Vec::new();
    strn.extend(utf16_string("XuiCanvas"));
    strn.extend(utf16_string("Root"));
    strn.extend(utf16_string("MyWidget"));
    let data: Vec<u8> = vec![
        0x00, 0x01, // class 1
        0x03, // properties and children
        0x00, 0x00, // property block size (unused)
        0x01, 0x0B, // base bitmask: Id, Width, Position
        0x00, 0x02, // Id: string 2
        0x42, 0xC8, 0x00, 0x00, // Width: 100.0
        0x00, 0x00, 0x00, 0x00, // Position: vector 0
        0x00, // the class's own level: nothing
        0x00, 0x00, 0x00, 0x01, // one child
        0x00, 0x03, // class 3
        0x00, // no flags
    ];
    let mut vect = Vec::new();
    vect.extend_from_slice(&be32(1.0f32.to_bits()));
    vect.extend_from_slice(&be32(2.0f32.to_bits()));
    vect.extend_from_slice(&be32(3.0f32.to_bits()));

    let table_start = 0x14usize;
    let strn_off = table_start + 3 * 12;
    let data_off = strn_off + strn.len();
    let vect_off = data_off + data.len();
    let total = vect_off + vect.len();

    let mut out = Vec::new();
    out.extend_from_slice(b"XUIB");
    out.extend_from_slice(&be32(5));
    out.extend_from_slice(&be32(0));
    out.extend_from_slice(&be16(0x000C));
    out.extend_from_slice(&be32(total as u32));
    out.extend_from_slice(&be16(3));
    for (tag, off, len) in [
        (b"STRN", strn_off, strn.len()),
        (b"DATA", data_off, data.len()),
        (b"VECT", vect_off, vect.len()),
    ] {
        out.extend_from_slice(tag);
        out.extend_from_slice(&be32(off as u32));
        out.extend_from_slice(&be32(len as u32));
    }
    out.extend(strn);
    out.extend(data);
    out.extend(vect);
    assert_eq!(out.len(), total);
    out
}

/// A v8 XUIB: one string, XuiCanvas; a root XuiCanvas without properties.
fn v8_scene() -> Vec<u8> {
    v8_with_data(&[0x01, 0x00])
}

/// A v8 XUIB with one string, XuiCanvas, and the given DATA section.
fn v8_with_data(data: &[u8]) -> Vec<u8> {
    let mut strn = Vec::new();
    strn.extend_from_slice(&be32(0));
    strn.extend_from_slice(&be16(1));
    strn.extend_from_slice(b"XuiCanvas\0");
    let data: Vec<u8> = data.to_vec();
    let table_start = 0x14usize;
    let strn_off = table_start + 2 * 12;
    let data_off = strn_off + strn.len();
    let total = data_off + data.len();
    let mut out = Vec::new();
    out.extend_from_slice(b"XUIB");
    out.extend_from_slice(&be32(8));
    out.extend_from_slice(&be32(0));
    out.extend_from_slice(&be16(0x000C));
    out.extend_from_slice(&be32(total as u32));
    out.extend_from_slice(&be16(2));
    out.extend_from_slice(b"STRN");
    out.extend_from_slice(&be32(strn_off as u32));
    out.extend_from_slice(&be32(strn.len() as u32));
    out.extend_from_slice(b"DATA");
    out.extend_from_slice(&be32(data_off as u32));
    out.extend_from_slice(&be32(data.len() as u32));
    out.extend(strn);
    out.extend(data);
    out
}

/// A XUIZ archive (single-byte names) with `a.png` (3 bytes) and `scene.xur`.
fn archive(xur: &[u8]) -> Vec<u8> {
    let mut table = Vec::new();
    for (name, size) in [("a.png", 3usize), ("scene.xur", xur.len())] {
        table.extend_from_slice(&be32(size as u32));
        table.extend_from_slice(&be32(0));
        table.push(name.len() as u8);
        table.extend_from_slice(name.as_bytes());
    }
    let mut out = Vec::new();
    out.extend_from_slice(b"XUIZ");
    out.extend_from_slice(&be32(0));
    out.extend_from_slice(&[0u8; 8]);
    out.extend_from_slice(&be32(table.len() as u32));
    out.extend_from_slice(&be16(2));
    out.extend(table);
    out.extend_from_slice(&[0x89, 0x50, 0x4E]);
    out.extend_from_slice(xur);
    out
}

#[test]
fn archive_lists_entries_back_to_back() {
    let xur = v5_scene();
    let data = archive(&xur);
    let a = XuizArchive::parse(&data).expect("parse");
    assert_eq!(a.version, 0);
    assert_eq!(a.entries.len(), 2);
    assert_eq!(a.entries[0].name, "a.png");
    assert_eq!(a.entries[1].name, "scene.xur");
    let table_end = 0x16 + (9 + 5) + (9 + 9);
    assert_eq!(a.entries[0].range, table_end..table_end + 3);
    assert_eq!(a.entries[1].range, table_end + 3..table_end + 3 + xur.len());
    assert_eq!(a.entries[0].size(), 3);
    assert_eq!(a.entries[1].size(), xur.len());
}

#[test]
fn archive_reads_entry_bytes() {
    let xur = v5_scene();
    let data = archive(&xur);
    let a = XuizArchive::parse(&data).expect("parse");
    let png = a.read(data.as_slice(), &a.entries[0]).expect("read");
    assert_eq!(png, &[0x89, 0x50, 0x4E]);
    let bytes = data.as_slice().read_at(a.entries[1].range.clone()).expect("read");
    assert_eq!(bytes, xur.as_slice());
    assert!(data.as_slice().read_at(0..data.len() + 1).is_err());
}

#[test]
fn archive_find_by_name() {
    let data = archive(&v5_scene());
    let a = XuizArchive::parse(&data).expect("parse");
    assert_eq!(a.find("scene.xur").map(|e| e.name.as_str()), Some("scene.xur"));
    assert!(a.find("missing.xur").is_none());
}

#[test]
fn archive_find_xuib_prefers_xur_entry() {
    let data = archive(&v5_scene());
    let a = XuizArchive::parse(&data).expect("parse");
    let e = a.find_xuib(data.as_slice()).expect("XUIB");
    assert_eq!(e.name, "scene.xur");
    let bytes = a.read(data.as_slice(), e).expect("read entry");
    assert_eq!(&bytes[0..4], b"XUIB");
}

#[test]
fn archive_without_xuib() {
    let mut data = archive(&v5_scene());
    let start = data.len() - v5_scene().len();
    data[start] = b'Q';
    let a = XuizArchive::parse(&data).expect("parse");
    assert!(a.find_xuib(data.as_slice()).is_none());
}

#[test]
fn archive_wide_names() {
    let mut table = Vec::new();
    table.extend_from_slice(&be32(2));
    table.extend_from_slice(&be32(0));
    table.push(3);
    for u in "é.x".encode_utf16() {
        table.extend_from_slice(&be16(u));
    }
    let mut data = Vec::new();
    data.extend_from_slice(b"XUIZ");
    data.extend_from_slice(&be32(1));
    data.extend_from_slice(&[0u8; 8]);
    data.extend_from_slice(&be32(table.len() as u32));
    data.extend_from_slice(&be16(1));
    data.extend(table);
    data.extend_from_slice(&[7, 8]);
    let a = XuizArchive::parse(&data).expect("parse");
    assert_eq!(a.version, 1);
    assert_eq!(a.entries[0].name, "é.x");
    assert_eq!(a.entries[0].size(), 2);
}

#[test]
fn archive_errors() {
    assert!(matches!(XuizArchive::parse(b"XUIZ"), Err(ArchiveError::TooShort)));
    let mut data = archive(&v5_scene());
    data[3] = b'B';
    match XuizArchive::parse(&data) {
        Err(e) => {
            assert!(matches!(e, ArchiveError::BadMagic(m) if &m == b"XUIB"));
        }
        Ok(_) => panic!("expected an error"),
    }
    let data = archive(&v5_scene());
    let cut = &data[..0x16 + 14 + 5];
    match XuizArchive::parse(cut) {
        Err(e) => {
            assert!(matches!(e, ArchiveError::TruncatedEntry { index: 1 }));
            assert_eq!(e.message(), "truncated entry at index 1");
        }
        Ok(_) => panic!("expected an error"),
    }
    assert_eq!(ArchiveError::TooShort.message(), "data too short for XUIZ header");
    assert_eq!(
        ArchiveError::BadMagic(*b"ABCD").message(),
        "bad magic: [41, 42, 43, 44]"
    );
}

#[test]
fn archive_parse_ignores_resource_data() {
    let data = archive(&v5_scene());
    let table_end = 0x16 + (9 + 5) + (9 + 9);
    let a = XuizArchive::parse(&data[..table_end]).expect("parse table only");
    let b = XuizArchive::parse(&data).expect("parse");
    assert_eq!(a.entries.len(), b.entries.len());
    for (x, y) in a.entries.iter().zip(b.entries.iter()) {
        assert_eq!(x.name, y.name);
        assert_eq!(x.range, y.range);
    }
}

#[test]
fn magic_checks() {
    let xur = v5_scene();
    let data = archive(&xur);
    assert!(is_xuiz(&data));
    assert!(!is_xuib(&data));
    assert!(is_xuib(&xur));
    assert!(!is_xuiz(&xur));
    assert!(!is_xuib(b"XUI"));
    assert!(!is_xuiz(b""));
}

#[test]
fn prop_type_ids() {
    assert_eq!(PropType::from_u8(1), Some(PropType::Bool));
    assert_eq!(PropType::from_u8(4), Some(PropType::Float));
    assert_eq!(PropType::from_u8(9), Some(PropType::Compound));
    assert_eq!(PropType::from_u8(10), Some(PropType::Custom));
    assert_eq!(PropType::from_u8(0), None);
    assert_eq!(PropType::from_u8(11), None);
}

#[test]
fn format_versions() {
    assert_eq!(FormatVersion::from_u32(5), FormatVersion::V5);
    assert_eq!(FormatVersion::from_u32(8), FormatVersion::V8);
    assert_eq!(FormatVersion::from_u32(7), FormatVersion::Unknown(7));
}

#[test]
fn v5_parse_scene() {
    let data = v5_scene();
    let xur = Xur::parse(&data).expect("parse");
    assert_eq!(xur.header.format_version, FormatVersion::V5);
    assert_eq!(xur.header.xui_version, 0x000C);
    assert_eq!(xur.header.section_count, 3);
    assert_eq!(xur.strings, vec!["XuiCanvas", "Root", "MyWidget"]);
    assert_eq!(xur.root.class_name, 1);
    assert_eq!(xur.root.properties.len(), 1);
    let g = &xur.root.properties[0];
    assert_eq!(g.bitmask, 0x0B);
    assert_eq!(g.level, 0);
    assert!(matches!(g.values[0], PropertyValue::String(2)));
    assert!(matches!(g.values[1], PropertyValue::Float(b) if b == 100.0f32.to_bits()));
    assert!(matches!(g.values[2], PropertyValue::Vector(0)));
    assert_eq!(xur.root.children.len(), 1);
    assert_eq!(xur.root.children[0].class_name, 3);
    assert_eq!(xur.get_string(2), Some("Root"));
    assert_eq!(xur.get_string(0), None);
    assert_eq!(xur.get_string(4), None);
    assert_eq!(
        xur.get_vector(0),
        Some((1.0f32.to_bits(), 2.0f32.to_bits(), 3.0f32.to_bits()))
    );
    assert_eq!(xur.get_vector(1), None);
    assert_eq!(xur.get_quaternion(0), None);
}

#[test]
fn v8_parse_scene() {
    let data = v8_scene();
    let xur = Xur::parse(&data).expect("parse");
    assert_eq!(xur.header.format_version, FormatVersion::V8);
    assert_eq!(xur.strings, vec!["XuiCanvas"]);
    assert_eq!(xur.root.class_name, 1);
    assert!(xur.root.properties.is_empty());
    assert!(xur.root.children.is_empty());
}

#[test]
fn parse_errors() {
    match Xur::parse(b"XUIB") {
        Err(ParseError::TooShort { needed, available }) => {
            assert_eq!((needed, available), (0x14, 4));
        }
        _ => panic!("expected TooShort"),
    }
    let mut data = v5_scene();
    data[0] = b'Z';
    match Xur::parse(&data) {
        Err(e) => {
            assert!(matches!(e, ParseError::BadMagic(m) if &m == b"ZUIB"));
            assert_eq!(e.message(), "bad magic: [5a, 55, 49, 42]");
        }
        Ok(_) => panic!("expected BadMagic"),
    }
    let mut data = v5_scene();
    data[0x14] = b'X';
    match Xur::parse(&data) {
        Err(e) => {
            assert!(matches!(e, ParseError::MissingSection("STRN")));
            assert_eq!(e.message(), "missing required section: STRN");
        }
        Ok(_) => panic!("expected MissingSection"),
    }
    let mut data = v8_scene();
    data[0x14] = b'X';
    assert!(matches!(Xur::parse(&data), Err(ParseError::MissingSection("STRN"))));
    let mut data = v5_scene();
    let n = data.len();
    data.truncate(n - 1);
    match Xur::parse(&data) {
        Err(ParseError::TooShort { needed, available }) => {
            assert_eq!((needed, available), (n, n - 1));
        }
        _ => panic!("expected TooShort"),
    }
}

#[test]
fn header_description() {
    let xur_data = v5_scene();
    let xur = Xur::parse(&xur_data).expect("parse");
    let n = xur_data.len();
    assert_eq!(
        xur.header.describe(),
        format!("XUIB V5 (xui=0x000c, size={n}, sections=3)")
    );
    let mut h = xur.header;
    h.format_version = FormatVersion::Unknown(7);
    h.magic = [0xff, 0, 0, 0];
    assert_eq!(h.describe(), format!("???? Unknown(7) (xui=0x000c, size={n}, sections=3)"));
}

#[test]
fn entry_output_names() {
    assert_eq!(entry_output_path("ui\\scene.xur", "/"), "ui/scene.xui");
    assert_eq!(entry_output_path("ui\\skin.png", "/"), "ui/skin.png");
    assert_eq!(entry_output_path("a.xur.b.xur", "/"), "a.xui.b.xui");
    assert_eq!(entry_output_path("notes.xurx", "/"), "notes.xurx");
    assert!(is_xur_name("x.xur"));
    assert!(!is_xur_name("x.xus"));
    assert_eq!(replace_all("aaa", "aa", "b"), "ba");
    assert_eq!(replace_all("abc", "", "x"), "abc");
}

#[test]
fn archive_counts_xur_resources() {
    let data = archive(&v5_scene());
    let a = XuizArchive::parse(&data).expect("parse");
    assert_eq!(a.xur_count(), 1);
}

#[test]
fn read_error_message() {
    let e = ArchiveError::ReadError(std::io::Error::new(std::io::ErrorKind::Other, "boom"));
    assert_eq!(e.message(), "read error: boom");
    let e = ParseError::Io(std::io::Error::new(std::io::ErrorKind::Other, "gone"));
    assert_eq!(e.message(), "io: gone");
    let e = ParseError::BadString { offset: 7 };
    assert_eq!(e.message(), "bad string at offset 7");
    let e = ParseError::TooShort { needed: 20, available: 3 };
    assert_eq!(e.message(), "need 20 bytes, only 3 available");
}

fn bad_object_message(data: &[u8]) -> String {
    match Xur::parse(data) {
        Err(e) => {
            assert!(matches!(e, ParseError::BadObject(_)));
            e.message()
        }
        Ok(_) => panic!("expected BadObject"),
    }
}

#[test]
fn v8_object_errors() {
    assert_eq!(bad_object_message(&v8_with_data(&[0x00, 0x00])), "bad object: null class @1");
    assert_eq!(bad_object_message(&v8_with_data(&[0x01])), "bad object: eof @1");
    assert_eq!(
        bad_object_message(&v8_with_data(&[0x01, 0x02, 0x01])),
        "bad object: child 0/1: bad object: eof @3"
    );
    assert_eq!(
        bad_object_message(&v8_with_data(&[0x01, 0x01, 0xff, 0x00])),
        "bad object: eof u32 @3"
    );
}

#[test]
fn v5_null_class() {
    let mut data = v5_scene();
    let data_off = 0x14 + 3 * 12 + (2 + 18) + (2 + 8) + (2 + 16);
    data[data_off] = 0;
    data[data_off + 1] = 0;
    assert_eq!(bad_object_message(&data), "bad object: null class name @0");
}

#[test]
fn v5_bad_string_and_io_errors() {
    // The first string claims 0x40 characters but the STRN section ends first.
    let mut data = v5_scene();
    let strn_off = 0x14 + 3 * 12;
    data[strn_off] = 0x00;
    data[strn_off + 1] = 0x40;
    match Xur::parse(&data) {
        Err(e) => {
            let strn_len = (2 + 18) + (2 + 8) + (2 + 16);
            assert!(matches!(e, ParseError::BadString { offset } if offset == strn_len));
        }
        Ok(_) => panic!("expected BadString"),
    }
    // The DATA section is cut short in the middle of the root's Width value.
    let mut data = v5_scene();
    let data_size_field = 0x14 + 12 + 8;
    data[data_size_field..data_size_field + 4].copy_from_slice(&be32(10));
    match Xur::parse(&data) {
        Err(e) => {
            assert!(matches!(e, ParseError::Io(_)));
            assert!(e.message().starts_with("io: "));
        }
        Ok(_) => panic!("expected an I/O error"),
    }
}

#[test]
fn v5_child_errors() {
    let data_off = 0x14 + 3 * 12 + (2 + 18) + (2 + 8) + (2 + 16);
    // The child (at 22 in DATA) has a null class name; the reading stands
    // past it.
    let mut data = v5_scene();
    data[data_off + 22] = 0;
    data[data_off + 23] = 0;
    assert_eq!(
        bad_object_message(&data),
        "bad object: child 0/1 @24: bad object: null class name @22"
    );
    // DATA ends in the middle of the child's class name: the failed read
    // leaves the reading at the end of the section.
    let mut data = v5_scene();
    let data_size_field = 0x14 + 12 + 8;
    data[data_size_field..data_size_field + 4].copy_from_slice(&be32(23));
    let message = bad_object_message(&data);
    assert!(message.starts_with("bad object: child 0/1 @23: io: "), "{message}");
}
