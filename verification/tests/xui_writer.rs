use exui::xui::classes::base_class_for;
use exui::xui::classes::own_properties_for;
use exui::xui::collect_custom_classes_from_xur;
use exui::xui::doc::clean_text;
use exui::xui::doc::property_text;
use exui::xui::doc::trim_str;
use exui::xui::generate_class_extensions;
use exui::xui::generate_class_extensions_from_map;
use exui::xui::generate_single_class_extension;
use exui::xui::is_writable;
use exui::xui::names::format_timeline_prop;
use exui::xui::names::get_names_for_hierarchy_level;
use exui::xui::names::name_at;
use exui::xui::names::resolve_compound_timeline_prop_name;
use exui::xui::names::resolve_timeline_prop_name;
use exui::xui::names::NameTable;
use exui::xui::to_xui;
use exui::xui::ClassSet;
use exui::xui::XuiPiece;
use exui::xur::FormatVersion;
use exui::xur::Header;
use exui::xur::KeyframePath;
use exui::xur::Object;
use exui::xur::PropertyGroup;
use exui::xur::PropertyValue;
use exui::xur::Xur;

fn be16(v: u16) -> [u8; 2] {
    v.to_be_bytes()
}

fn be32(v: u32) -> [u8; 4] {
    v.to_be_bytes()
}

fn utf16_string(s: &str) -> Vec<u8> {
    let units: Vec<u16> = s.encode_utf16().collect();
    let mut out = Vec::new();
    out.extend_from_slice(&be16(units.len() as u16));
    for u in units {
        out.extend_from_slice(&be16(u));
    }
    out
}

/// A v5 XUIB with the given strings, DATA section and vectors.
fn v5_file(strings: &[&str], data: &[u8], vect: &[u8]) -> Vec<u8> {
    let mut strn = Vec::new();
    for s in strings {
        strn.extend(utf16_string(s));
    }
    let strn_off = 0x14 + 3 * 12;
    let data_off = strn_off + strn.len();
    let vect_off = data_off + data.len();
    let total = vect_off + vect.len();
    let mut out = Vec::new();
    out.extend_from_slice(b"XUIB");
    out.extend_from_slice(&be32(5));
    out.extend_from_slice(&be32(0));
    out.extend_from_slice(&be16(0x000C));
    out.extend_from_slice(&be32(total as u32));
    out.extend_from_slice(&be16(3));
    for (tag, off, len) in [
        (b"STRN", strn_off, strn.len()),
        (b"DATA", data_off, data.len()),
        (b"VECT", vect_off, vect.len()),
    ] {
        out.extend_from_slice(tag);
        out.extend_from_slice(&be32(off as u32));
        out.extend_from_slice(&be32(len as u32));
    }
    out.extend(strn);
    out.extend_from_slice(data);
    out.extend_from_slice(vect);
    out
}

fn scene() -> Vec<u8> {
    let data: Vec<u8> = vec![
        0x00, 0x01, 0x03, 0x00, 0x00, 0x01, 0x0B, 0x00, 0x02, 0x42, 0xC8, 0x00, 0x00, 0x00,
        0x00, 0x00, 0x00, 0x00, 0x00, 0x00, 0x00, 0x01, 0x00, 0x03, 0x00,
    ];
    let mut vect = Vec::new();
    vect.extend_from_slice(&be32(1.0f32.to_bits()));
    vect.extend_from_slice(&be32(2.0f32.to_bits()));
    vect.extend_from_slice(&be32(3.0f32.to_bits()));
    v5_file(&["XuiCanvas", "Root", "MyWidget"], &data, &vect)
}

fn render(pieces: &[XuiPiece]) -> String {
    let mut out = String::new();
    for p in pieces {
        match p {
            XuiPiece::Text(s) => out.push_str(s),
            XuiPiece::Float(bits) => out.push_str(&format!("{:.6}", f32::from_bits(*bits))),
        }
    }
    out
}

#[test]
fn writes_scene_xml() {
    let data = scene();
    let xur = Xur::parse(&data).expect("parse");
    assert!(is_writable(&xur));
    let xml = render(&to_xui(&xur));
    assert_eq!(
        xml,
        "<XuiCanvas version=\"000c\">\n<Properties>\n<Id>Root</Id>\n<Width>100.000000</Width>\n\
         <Position>1.000000,2.000000,3.000000</Position>\n</Properties>\n<MyWidget>\n</MyWidget>\n\
         </XuiCanvas>\n"
    );
    assert!(xml.starts_with("<Xui"));
}

#[test]
fn writes_floats_as_pieces() {
    let data = scene();
    let xur = Xur::parse(&data).expect("parse");
    let pieces = to_xui(&xur);
    let floats: Vec<u32> = pieces
        .iter()
        .filter_map(|p| match p {
            XuiPiece::Float(b) => Some(*b),
            XuiPiece::Text(_) => None,
        })
        .collect();
    assert_eq!(
        floats,
        vec![100.0f32.to_bits(), 1.0f32.to_bits(), 2.0f32.to_bits(), 3.0f32.to_bits()]
    );
}

#[test]
fn writes_unresolved_vector_and_escaped_text() {
    // Root XuiText: Id "a<b & c  \r\nline2  \n" (string 2), Position: vector 5
    // (missing), Show: true, Opacity (float bits), ColorFactor: color.
    let data: Vec<u8> = vec![
        0x00, 0x01, // class 1 (XuiText)
        0x01, // properties
        0x00, 0x00, // size
        0x02, 0x22, 0x09, // base bitmask, two bytes: bits 0, 3, 9, 13
        0x00, 0x02, // Id: string 2
        0x00, 0x00, 0x00, 0x05, // Position: vector 5
        0x01, // Show: true
        0x12, 0x34, 0xAB, 0xCD, // ColorFactor
        0x00, // XuiText level: nothing
    ];
    let file = v5_file(&["XuiText", "a<b & c  \r\nline2  \n"], &data, &[]);
    let xur = Xur::parse(&file).expect("parse");
    let xml = render(&to_xui(&xur));
    assert_eq!(
        xml,
        "<XuiText version=\"000c\">\n<Properties>\n<Id>a&lt;b &amp; c\nline2\n</Id>\n\
         <Position>VECT[5]</Position>\n<Show>true</Show>\n<ColorFactor>0x1234abcd</ColorFactor>\n\
         </Properties>\n</XuiText>\n"
    );
}

#[test]
fn unknown_class_name() {
    // The root's class index is past the string table.
    let data: Vec<u8> = vec![0x00, 0x07, 0x00];
    let file = v5_file(&["XuiCanvas"], &data, &[]);
    let xur = Xur::parse(&file).expect("parse");
    let xml = render(&to_xui(&xur));
    assert_eq!(xml, "<Unknown version=\"000c\">\n</Unknown>\n");
}

#[test]
fn class_extensions_of_scene() {
    let data = scene();
    let xur = Xur::parse(&data).expect("parse");
    let ext = generate_class_extensions(&xur).expect("custom classes");
    assert_eq!(
        ext,
        "<XUIClassExtension version=\"0001\">\n<XUIClass Name=\"MyWidget\" \
         BaseClassName=\"XuiControl\" Bitmap=\"\" Icon=\"\" DefaultWidth=\"100\" \
         DefaultHeight=\"100\" Description=\"MyWidget\">\n</XUIClass>\n</XUIClassExtension>\n"
    );
}

#[test]
fn no_class_extensions_for_standard_classes() {
    let data: Vec<u8> = vec![0x00, 0x01, 0x00];
    let file = v5_file(&["XuiCanvas"], &data, &[]);
    let xur = Xur::parse(&file).expect("parse");
    assert!(generate_class_extensions(&xur).is_none());
    assert!(generate_class_extensions_from_map(&ClassSet::new()).is_none());
}

#[test]
fn class_set_is_sorted_and_deduplicated() {
    let mut set = ClassSet::new();
    set.insert("Zeta".to_string());
    set.insert("Alpha".to_string());
    set.insert("Mid".to_string());
    set.insert("Alpha".to_string());
    assert_eq!(set.len(), 3);
    assert_eq!(set.get(0), "Alpha");
    assert_eq!(set.get(1), "Mid");
    assert_eq!(set.get(2), "Zeta");
    assert!(set.contains("Mid"));
    assert!(!set.contains("Beta"));
    assert!(!set.is_empty());
}

#[test]
fn class_set_collects_from_xur() {
    let data = scene();
    let xur = Xur::parse(&data).expect("parse");
    let mut set = ClassSet::new();
    set.insert("Another".to_string());
    collect_custom_classes_from_xur(&xur, &mut set);
    assert_eq!(set.len(), 2);
    assert_eq!(set.get(0), "Another");
    assert_eq!(set.get(1), "MyWidget");
    let ext = generate_class_extensions_from_map(&set).expect("some");
    assert!(ext.starts_with("<XUIClassExtension version=\"0001\">\n<XUIClass Name=\"Another\""));
    assert!(ext.ends_with("</XUIClass>\n</XUIClassExtension>\n"));
}

#[test]
fn single_class_extension_with_properties() {
    let ext = generate_single_class_extension("XuiNavButton");
    assert_eq!(
        ext,
        "<XUIClassExtension version=\"0001\">\n<XUIClass Name=\"XuiNavButton\" \
         BaseClassName=\"XuiControl\" Bitmap=\"\" Icon=\"\" DefaultWidth=\"100\" \
         DefaultHeight=\"100\" Description=\"XuiNavButton\">\n\
         <PropDef Flags=\"\" Name=\"PressPath\" Type=\"string\" Editor=\"\">\n<DefaultVal></DefaultVal>\n</PropDef>\n\
         <PropDef Flags=\"\" Name=\"StayVisible\" Type=\"bool\" Editor=\"\">\n<DefaultVal></DefaultVal>\n</PropDef>\n\
         <PropDef Flags=\"\" Name=\"SrcTransIndex\" Type=\"unsigned\" Editor=\"\">\n<DefaultVal></DefaultVal>\n</PropDef>\n\
         <PropDef Flags=\"\" Name=\"DestTransIndex\" Type=\"unsigned\" Editor=\"\">\n<DefaultVal></DefaultVal>\n</PropDef>\n\
         </XUIClass>\n</XUIClassExtension>\n"
    );
}

#[test]
fn base_classes() {
    assert_eq!(base_class_for("DashScene"), "XuiScene");
    assert_eq!(base_class_for("DashMainScene"), "DashScene");
    assert_eq!(base_class_for("ScriptList"), "XuiList");
    assert_eq!(base_class_for("XuiButton_Multiline"), "XuiButton");
    assert_eq!(base_class_for("XuiButton2"), "XuiButton");
    assert_eq!(base_class_for("XuiButton"), "XuiControl");
    assert_eq!(base_class_for("Foo12"), "XuiControl");
}

#[test]
fn own_properties() {
    assert_eq!(
        own_properties_for("XuiNavButton"),
        vec![
            ("PressPath", "string"),
            ("StayVisible", "bool"),
            ("SrcTransIndex", "unsigned"),
            ("DestTransIndex", "unsigned"),
        ]
    );
    assert!(own_properties_for("MyWidget").is_empty());
}

#[test]
fn name_tables() {
    assert_eq!(get_names_for_hierarchy_level("XuiNavButton", 3), NameTable::NavButton);
    assert_eq!(get_names_for_hierarchy_level("XuiListItem", 2), NameTable::Checkbox);
    assert_eq!(get_names_for_hierarchy_level("XuiListItem", 3), NameTable::Empty);
    assert_eq!(get_names_for_hierarchy_level("Nope", 1), NameTable::Empty);
    assert_eq!(name_at(NameTable::Element, 9), "Show");
    assert_eq!(name_at(NameTable::Element, 14), "Unknown");
}

#[test]
fn timeline_property_names() {
    // hier_level 0 is the class's own level; past the derived levels is
    // XuiElement.
    assert_eq!(resolve_timeline_prop_name("XuiText", 0, 1), "TextColor");
    assert_eq!(resolve_timeline_prop_name("XuiText", 1, 3), "Position");
    let simple = KeyframePath {
        hier_level: 1,
        prop_idx: 6,
        prop_type: None,
        prop_name: String::new(),
        depth: 1,
        extra_bytes: vec![],
        default_value: None,
    };
    assert_eq!(format_timeline_prop("XuiFigure", &simple), ("Opacity".to_string(), None));
    let stop = KeyframePath {
        hier_level: 0,
        prop_idx: 1,
        prop_type: None,
        prop_name: String::new(),
        depth: 3,
        extra_bytes: vec![3, 2],
        default_value: Some(4),
    };
    assert_eq!(
        format_timeline_prop("XuiFigure", &stop),
        ("Fill.Gradient.StopColor".to_string(), Some(4))
    );
    // Only the Gradient table's array properties carry an index: bit 2 of
    // Fill is TextureFileName, no array.
    let texture = KeyframePath {
        hier_level: 0,
        prop_idx: 1,
        prop_type: None,
        prop_name: String::new(),
        depth: 2,
        extra_bytes: vec![2],
        default_value: Some(5),
    };
    assert_eq!(
        format_timeline_prop("XuiFigure", &texture),
        ("Fill.TextureFileName".to_string(), None)
    );
    assert_eq!(
        resolve_compound_timeline_prop_name("XuiFigure", 0, 1, &[3, 2]),
        "StopColor"
    );
    assert_eq!(resolve_compound_timeline_prop_name("XuiFigure", 0, 2, &[3]), "Closed");
}

#[test]
fn text_cleaning() {
    assert_eq!(clean_text("a  \r\nb\t\n"), "a\nb\n");
    assert_eq!(clean_text("x\n\ny  "), "x\n\ny");
    assert_eq!(clean_text(""), "");
    assert_eq!(property_text("<a>&\r"), "&lt;a&gt;&amp;");
    assert_eq!(property_text("q\rz"), "q&#13;z");
    assert_eq!(trim_str("  id \n"), "id");
}

#[test]
fn timeline_property_paths_from_doc_examples() {
    let position = KeyframePath {
        hier_level: 1,
        prop_idx: 3,
        prop_type: None,
        prop_name: String::new(),
        depth: 0,
        extra_bytes: vec![],
        default_value: None,
    };
    assert_eq!(format_timeline_prop("XuiFigure", &position), ("Position".to_string(), None));
    let fill_type = KeyframePath {
        hier_level: 0,
        prop_idx: 1,
        prop_type: None,
        prop_name: String::new(),
        depth: 2,
        extra_bytes: vec![0],
        default_value: Some(9),
    };
    assert_eq!(format_timeline_prop("XuiFigure", &fill_type), ("Fill.FillType".to_string(), None));
    let named = KeyframePath {
        hier_level: 0,
        prop_idx: 0,
        prop_type: None,
        prop_name: "Custom".to_string(),
        depth: 1,
        extra_bytes: vec![],
        default_value: None,
    };
    assert_eq!(format_timeline_prop("XuiFigure", &named), ("Custom".to_string(), None));
}

/// A v8 XUIB: strings XuiCanvas and Root; a root XuiCanvas with Id (string 2)
/// and Width (FLOT entry 0, 100.0).
fn v8_scene_with_properties() -> Vec<u8> {
    let mut strn = Vec::new();
    strn.extend_from_slice(&be32(0));
    strn.extend_from_slice(&be16(2));
    strn.extend_from_slice(b"XuiCanvas\0Root\0");
    let data: Vec<u8> = vec![0x01, 0x01, 0x02, 0x03, 0x02, 0x00];
    let flot = be32(100.0f32.to_bits());
    let strn_off = 0x14 + 3 * 12;
    let data_off = strn_off + strn.len();
    let flot_off = data_off + data.len();
    let total = flot_off + flot.len();
    let mut out = Vec::new();
    out.extend_from_slice(b"XUIB");
    out.extend_from_slice(&be32(8));
    out.extend_from_slice(&be32(0));
    out.extend_from_slice(&be16(0x000C));
    out.extend_from_slice(&be32(total as u32));
    out.extend_from_slice(&be16(3));
    for (tag, off, len) in [
        (b"STRN", strn_off, strn.len()),
        (b"DATA", data_off, data.len()),
        (b"FLOT", flot_off, flot.len()),
    ] {
        out.extend_from_slice(tag);
        out.extend_from_slice(&be32(off as u32));
        out.extend_from_slice(&be32(len as u32));
    }
    out.extend(strn);
    out.extend(data);
    out.extend_from_slice(&flot);
    out
}

#[test]
fn writes_v8_scene_with_pooled_float() {
    let data = v8_scene_with_properties();
    let xur = Xur::parse(&data).expect("parse");
    assert_eq!(xur.strings, vec!["XuiCanvas", "Root"]);
    assert_eq!(xur.root.properties.len(), 1);
    assert_eq!(xur.root.properties[0].values.len(), 2);
    let xml = render(&to_xui(&xur));
    assert_eq!(
        xml,
        "<XuiCanvas version=\"000c\">\n<Properties>\n<Id>Root</Id>\n<Width>100.000000</Width>\n\
         </Properties>\n</XuiCanvas>\n"
    );
}

/// A v8 XUIB with the given strings and further sections after STRN.
fn v8_file(strings: &[&str], sections: &[(&[u8; 4], Vec<u8>)]) -> Vec<u8> {
    let mut strn = Vec::new();
    strn.extend_from_slice(&be32(0));
    strn.extend_from_slice(&be16(strings.len() as u16));
    for s in strings {
        strn.extend_from_slice(s.as_bytes());
        strn.push(0);
    }
    let count = 1 + sections.len();
    let mut offsets = Vec::new();
    let mut off = 0x14 + count * 12;
    offsets.push((b"STRN", off, strn.len()));
    off += strn.len();
    for (tag, body) in sections {
        offsets.push((*tag, off, body.len()));
        off += body.len();
    }
    let mut out = Vec::new();
    out.extend_from_slice(b"XUIB");
    out.extend_from_slice(&be32(8));
    out.extend_from_slice(&be32(0));
    out.extend_from_slice(&be16(0x000C));
    out.extend_from_slice(&be32(off as u32));
    out.extend_from_slice(&be16(count as u16));
    for (tag, o, len) in offsets {
        out.extend_from_slice(tag);
        out.extend_from_slice(&be32(o as u32));
        out.extend_from_slice(&be32(len as u32));
    }
    out.extend(strn);
    for (_, body) in sections {
        out.extend_from_slice(body);
    }
    out
}

#[test]
fn writes_v8_timelines() {
    let data: Vec<u8> = vec![
        0x01, 0x06, // XuiCanvas, children and a timeline
        0x01, // one child
        0x03, 0x01, 0x01, 0x01, 0x02, // XuiText, one value: Id "Btn"
        0x01, 0x00, // one named frame, from NAME entry 0
        0x01, // one timeline
        0x02, 0x01, // target "Btn", one path
        0x01, 0x01, 0x06, // depth 1: level 1 (XuiElement), property 6 (Opacity)
        0x02, 0x00, // two keyframes from KEYD entry 0
    ];
    let name: Vec<u8> = vec![0x04, 0x0A, 0x01];
    let keyd: Vec<u8> = vec![0x00, 0x00, 0x00, 0x14, 0x02, 0x05, 0x06, 0x07, 0x01];
    let keyp: Vec<u8> = vec![0x00, 0x01];
    let mut flot = Vec::new();
    flot.extend_from_slice(&be32(0.0f32.to_bits()));
    flot.extend_from_slice(&be32(1.0f32.to_bits()));
    let file = v8_file(
        &["XuiCanvas", "Btn", "XuiText", "Start"],
        &[(b"DATA", data), (b"NAME", name), (b"KEYD", keyd), (b"KEYP", keyp), (b"FLOT", flot)],
    );
    let xur = Xur::parse(&file).expect("parse");
    let tl = xur.root.timelines.as_ref().expect("timelines");
    assert_eq!(tl.named_frames.len(), 1);
    assert_eq!(tl.timelines.len(), 1);
    assert_eq!(tl.timelines[0].target_class.as_deref(), Some("XuiText"));
    assert_eq!(tl.timelines[0].keyframes.len(), 2);
    let xml = render(&to_xui(&xur));
    assert_eq!(
        xml,
        "<XuiCanvas version=\"000c\">\n<XuiText>\n<Properties>\n<Id>Btn</Id>\n</Properties>\n\
         </XuiText>\n<Timelines>\n<NamedFrames>\n<NamedFrame>\n<Name>Start</Name>\n<Time>10</Time>\n\
         <Command>stop</Command>\n</NamedFrame>\n</NamedFrames>\n<Timeline>\n<Id>Btn</Id>\n\
         <TimelineProp>Opacity</TimelineProp>\n<KeyFrame>\n<Time>0</Time>\n\
         <Interpolation>0</Interpolation>\n<Prop>0.000000</Prop>\n</KeyFrame>\n<KeyFrame>\n\
         <Time>20</Time>\n<Interpolation>2</Interpolation>\n<EaseIn>5</EaseIn>\n\
         <EaseOut>6</EaseOut>\n<EaseScale>7</EaseScale>\n<Prop>1.000000</Prop>\n</KeyFrame>\n\
         </Timeline>\n</Timelines>\n</XuiCanvas>\n"
    );
    assert!(!xml.contains("VECT["));
}

/// A XuiFigure whose Fill holds a Gradient group with the given values (bits
/// 0, 1 and 2: Radial, NumStops and the StopColor array).
fn figure_with_gradient(values: Vec<PropertyValue>) -> Xur<'static> {
    let gradient = PropertyGroup { bitmask: 0b111, values, level: 0 };
    let fill = PropertyGroup {
        bitmask: 1 << 3,
        values: vec![PropertyValue::Object(vec![gradient])],
        level: 0,
    };
    let figure = PropertyGroup {
        bitmask: 1 << 1,
        values: vec![PropertyValue::Object(vec![fill])],
        level: 1,
    };
    Xur {
        header: Header {
            magic: *b"XUIB",
            format_version: FormatVersion::V5,
            raw_version: 5,
            reserved: 0,
            xui_version: 0x000C,
            total_size: 0,
            section_count: 0,
        },
        strings: vec!["XuiFigure".to_string()],
        vectors: &[],
        quaternions: &[],
        custom: &[],
        root: Object {
            class_name: 1,
            properties: vec![figure],
            children: vec![],
            timelines: None,
            _raw_props: &[],
        },
    }
}

#[test]
fn writes_compound_arrays_with_indices() {
    let xur = figure_with_gradient(vec![
        PropertyValue::Bool(true),
        PropertyValue::Unsigned(2),
        PropertyValue::Color(1),
        PropertyValue::Color(2),
    ]);
    assert!(is_writable(&xur));
    let xml = render(&to_xui(&xur));
    assert_eq!(
        xml,
        "<XuiFigure version=\"000c\">\n<Properties>\n<Fill>\n<Properties>\n<Gradient>\n\
         <Properties>\n<Radial>true</Radial>\n<NumStops>2</NumStops>\n\
         <StopColor index=\"0\">0x00000001</StopColor>\n\
         <StopColor index=\"1\">0x00000002</StopColor>\n</Properties>\n</Gradient>\n\
         </Properties>\n</Fill>\n</Properties>\n</XuiFigure>\n"
    );
}

#[test]
fn compound_with_too_few_values_is_not_writable() {
    let xur = figure_with_gradient(vec![]);
    assert!(!is_writable(&xur));
    let xur = figure_with_gradient(vec![PropertyValue::Bool(false)]);
    assert!(!is_writable(&xur));
    let xur = figure_with_gradient(vec![PropertyValue::Bool(false), PropertyValue::Unsigned(0)]);
    assert!(is_writable(&xur));
}
