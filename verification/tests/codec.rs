//! Scenario tests: the codec run on concrete streams and drawings.

use dxf::code_pair::{CodePair, CodePairValue};
use dxf::drawing::Drawing;
use dxf::error::DxfError;
use dxf::header::AcadVersion;
use dxf::cursor::CodePairCursor;
use dxf::reader::is_dxb_signature;
use dxf::record::{Block, Class, Entity, Object, TableRecord};

fn sp(code: i32, v: &str) -> CodePair {
    CodePair::new_str(code, v)
}

fn ip(code: i32, v: i32) -> CodePair {
    CodePair::new_i32(code, v)
}

/// A thumbnail buffer with its synthesized header: magic bytes, the
/// little-endian payload length, reserved fields, the fixed offset.
fn make_thumbnail(payload: &[u8]) -> Vec<u8> {
    let n = payload.len() as u32;
    let mut b = vec![
        66u8,
        77u8,
        (n & 0xff) as u8,
        ((n >> 8) & 0xff) as u8,
        ((n >> 16) & 0xff) as u8,
        ((n >> 24) & 0xff) as u8,
        0,
        0,
        0,
        0,
        0x36,
        0x04,
        0,
        0,
    ];
    b.extend_from_slice(payload);
    b
}

#[test]
fn minimal_document() {
    let pairs = vec![sp(0, "SECTION"), sp(2, "ENTITIES"), sp(0, "ENDSEC"), sp(0, "EOF")];
    let drawing = Drawing::load(pairs).unwrap();
    assert!(drawing.entities.is_empty());
    assert_eq!(drawing.header.version, AcadVersion::R12);
    assert!(!drawing.header.handles_enabled);
    assert_eq!(drawing, Drawing::default());
}

#[test]
fn missing_eof_is_tolerated() {
    let pairs = vec![sp(0, "SECTION"), sp(2, "ENTITIES"), sp(0, "ENDSEC")];
    let drawing = Drawing::load(pairs).unwrap();
    assert_eq!(drawing, Drawing::default());
}

#[test]
fn empty_stream_loads_default() {
    let drawing = Drawing::load(Vec::new()).unwrap();
    assert_eq!(drawing, Drawing::default());
}

#[test]
fn round_trip_full_document() {
    let mut d = Drawing::default();
    d.header.version = AcadVersion::R2004;
    d.classes.push(Class { pairs: vec![sp(1, "ACDBDICTIONARYWDFLT"), ip(90, 0)] });
    d.app_ids.push(TableRecord { pairs: vec![sp(2, "ACAD"), ip(70, 0)] });
    d.layers.push(TableRecord { pairs: vec![sp(2, "0"), ip(62, 7), sp(6, "CONTINUOUS")] });
    d.layers.push(TableRecord { pairs: vec![sp(2, "WALLS"), ip(62, 1)] });
    d.view_ports.push(TableRecord { pairs: vec![sp(2, "*ACTIVE")] });
    d.blocks.push(Block { pairs: vec![sp(2, "DOOR"), ip(70, 0), sp(3, "DOOR")] });
    d.entities.push(Entity {
        name: "LINE".to_string(),
        pairs: vec![sp(8, "0"), sp(10, "1.5"), sp(20, "2.5")],
    });
    d.entities.push(Entity { name: "CIRCLE".to_string(), pairs: vec![sp(8, "WALLS")] });
    d.objects.push(Object { name: "DICTIONARY".to_string(), pairs: vec![sp(3, "ACAD_GROUP")] });
    d.thumbnail = Some(make_thumbnail(&[1, 2, 3, 4, 5]));
    let saved = d.save();
    let loaded = Drawing::load(saved).unwrap();
    assert_eq!(loaded, d);
}

#[test]
fn round_trip_empty_document() {
    let d = Drawing::default();
    let loaded = Drawing::load(d.save()).unwrap();
    assert_eq!(loaded, d);
}

#[test]
fn thumbnail_chunking_142_bytes() {
    let payload: Vec<u8> = (0..142u8).collect();
    let mut d = Drawing::default();
    d.header.version = AcadVersion::R2000;
    d.thumbnail = Some(make_thumbnail(&payload));
    let saved = d.save();
    let runs: Vec<&CodePair> = saved.iter().filter(|p| p.code == 310).collect();
    assert_eq!(runs.len(), 2);
    match (&runs[0].value, &runs[1].value) {
        (CodePairValue::Str(a), CodePairValue::Str(b)) => {
            assert_eq!(a.len(), 256);
            assert_eq!(b.len(), 28);
        },
        _ => panic!("thumbnail runs must be strings"),
    }
    let declared = saved.iter().find(|p| p.code == 90).unwrap();
    assert_eq!(declared.value, CodePairValue::Int(142));
    let loaded = Drawing::load(saved).unwrap();
    assert_eq!(loaded.thumbnail, d.thumbnail);
}

#[test]
fn thumbnail_hex_is_uppercase() {
    let mut d = Drawing::default();
    d.header.version = AcadVersion::R2000;
    d.thumbnail = Some(make_thumbnail(&[0xAB, 0x0F]));
    let saved = d.save();
    let run = saved.iter().find(|p| p.code == 310).unwrap();
    assert_eq!(run.value, CodePairValue::Str("AB0F".to_string()));
}

#[test]
fn thumbnail_gated_below_threshold() {
    let mut d = Drawing::default();
    d.header.version = AcadVersion::R14;
    d.thumbnail = Some(make_thumbnail(&[9, 9, 9]));
    let saved = d.save();
    assert!(!saved.iter().any(|p| p.value == CodePairValue::Str("THUMBNAILIMAGE".to_string())));
    let loaded = Drawing::load(saved).unwrap();
    assert_eq!(loaded.thumbnail, None);
}

#[test]
fn thumbnail_written_at_threshold() {
    let mut d = Drawing::default();
    d.header.version = AcadVersion::R2000;
    d.thumbnail = Some(make_thumbnail(&[9, 9, 9]));
    let saved = d.save();
    assert!(saved.iter().any(|p| p.value == CodePairValue::Str("THUMBNAILIMAGE".to_string())));
}

#[test]
fn empty_classes_section_omitted() {
    let d = Drawing::default();
    let saved = d.save();
    assert!(!saved.iter().any(|p| p.value == CodePairValue::Str("CLASSES".to_string())));
}

#[test]
fn nonempty_classes_section_written() {
    let mut d = Drawing::default();
    d.classes.push(Class { pairs: vec![sp(1, "X")] });
    let saved = d.save();
    assert!(saved.iter().any(|p| p.code == 2 && p.value == CodePairValue::Str(
        "CLASSES".to_string(),
    )));
}

#[test]
fn empty_blocks_section_omitted() {
    let saved = Drawing::default().save();
    assert!(!saved.iter().any(|p| p.value == CodePairValue::Str("BLOCKS".to_string())));
}

#[test]
fn unknown_section_skipped() {
    let pairs = vec![
        sp(0, "SECTION"),
        sp(2, "ENTITIES"),
        sp(0, "ENDSEC"),
        sp(0, "SECTION"),
        sp(2, "GADGETRY"),
        ip(999, 42),
        sp(0, "WIDGET"),
        sp(7, "payload"),
        sp(0, "ENDSEC"),
        sp(0, "SECTION"),
        sp(2, "OBJECTS"),
        sp(0, "ENDSEC"),
        sp(0, "EOF"),
    ];
    let drawing = Drawing::load(pairs).unwrap();
    assert_eq!(drawing, Drawing::default());
}

#[test]
fn missing_terminator_rejected() {
    let pairs = vec![sp(0, "SECTION"), sp(2, "HEADER"), sp(9, "$INSUNITS"), ip(70, 4)];
    match Drawing::load(pairs) {
        Err(DxfError::UnexpectedEndOfInput) => {},
        other => panic!("expected UnexpectedEndOfInput, got {:?}", other),
    }
}

#[test]
fn wrong_item_type_rejected() {
    let pairs = vec![sp(0, "SECTION"), sp(2, "TABLES"), sp(0, "LINE"), sp(0, "ENDSEC")];
    match Drawing::load(pairs) {
        Err(DxfError::UnexpectedCodePair(pair, msg)) => {
            assert_eq!(pair, sp(0, "LINE"));
            assert_eq!(msg, "");
        },
        other => panic!("expected UnexpectedCodePair, got {:?}", other),
    }
}

#[test]
fn unexpected_code_in_thumbnail() {
    let pairs = vec![
        sp(0, "SECTION"),
        sp(2, "THUMBNAILIMAGE"),
        ip(90, 1),
        ip(20, 7),
        sp(0, "ENDSEC"),
        sp(0, "EOF"),
    ];
    match Drawing::load(pairs) {
        Err(DxfError::UnexpectedCode(20)) => {},
        other => panic!("expected UnexpectedCode(20), got {:?}", other),
    }
}

#[test]
fn malformed_hex_rejected() {
    let pairs = vec![
        sp(0, "SECTION"),
        sp(2, "THUMBNAILIMAGE"),
        ip(90, 1),
        sp(310, "XYZ"),
        sp(0, "ENDSEC"),
        sp(0, "EOF"),
    ];
    match Drawing::load(pairs) {
        Err(DxfError::ParseError(_)) => {},
        other => panic!("expected ParseError, got {:?}", other),
    }
}

#[test]
fn thumbnail_header_synthesized() {
    let pairs = vec![
        sp(0, "SECTION"),
        sp(2, "THUMBNAILIMAGE"),
        ip(90, 3),
        sp(310, "A1B2C3"),
        sp(0, "ENDSEC"),
        sp(0, "EOF"),
    ];
    let drawing = Drawing::load(pairs).unwrap();
    let t = drawing.thumbnail.unwrap();
    assert_eq!(t, make_thumbnail(&[0xA1, 0xB2, 0xC3]));
}

#[test]
fn declared_thumbnail_length_not_trusted() {
    // the declared length disagrees with the data; the bytes actually read
    // win
    let pairs = vec![
        sp(0, "SECTION"),
        sp(2, "THUMBNAILIMAGE"),
        ip(90, 999),
        sp(310, "FF"),
        sp(0, "ENDSEC"),
        sp(0, "EOF"),
    ];
    let drawing = Drawing::load(pairs).unwrap();
    assert_eq!(drawing.thumbnail.unwrap(), make_thumbnail(&[0xFF]));
}

#[test]
fn lowercase_hex_accepted() {
    let pairs = vec![
        sp(0, "SECTION"),
        sp(2, "THUMBNAILIMAGE"),
        ip(90, 1),
        sp(310, "ff"),
        sp(0, "ENDSEC"),
        sp(0, "EOF"),
    ];
    let drawing = Drawing::load(pairs).unwrap();
    assert_eq!(drawing.thumbnail.unwrap(), make_thumbnail(&[0xFF]));
}

#[test]
fn trailing_marker_rejected() {
    let pairs = vec![sp(0, "SECTION"), sp(2, "ENTITIES"), sp(0, "ENDSEC"), sp(0, "GARBAGE")];
    match Drawing::load(pairs) {
        Err(DxfError::UnexpectedCodePair(pair, msg)) => {
            assert_eq!(pair, sp(0, "GARBAGE"));
            assert_eq!(msg, "expected 0/SECTION");
        },
        other => panic!("expected UnexpectedCodePair, got {:?}", other),
    }
}

#[test]
fn top_level_non_marker_rejected() {
    let pairs = vec![ip(10, 5)];
    match Drawing::load(pairs) {
        Err(DxfError::UnexpectedCodePair(pair, msg)) => {
            assert_eq!(pair, ip(10, 5));
            assert_eq!(msg, "expected 0/SECTION or 0/EOF");
        },
        other => panic!("expected UnexpectedCodePair, got {:?}", other),
    }
}

#[test]
fn marker_with_integer_value_rejected() {
    let pairs = vec![ip(0, 5)];
    match Drawing::load(pairs) {
        Err(DxfError::ParseError(_)) => {},
        other => panic!("expected ParseError, got {:?}", other),
    }
}

#[test]
fn missing_section_name_rejected() {
    let pairs = vec![sp(0, "SECTION"), ip(70, 1)];
    match Drawing::load(pairs) {
        Err(DxfError::UnexpectedCodePair(pair, msg)) => {
            assert_eq!(pair, ip(70, 1));
            assert_eq!(msg, "expected 2/<section-name>");
        },
        other => panic!("expected UnexpectedCodePair, got {:?}", other),
    }
}

#[test]
fn header_version_and_handles_read() {
    let pairs = vec![
        sp(0, "SECTION"),
        sp(2, "HEADER"),
        sp(9, "$ACADVER"),
        sp(1, "AC1021"),
        sp(9, "$HANDLING"),
        ip(70, 1),
        sp(9, "$INSUNITS"),
        ip(70, 4),
        sp(0, "ENDSEC"),
        sp(0, "EOF"),
    ];
    let drawing = Drawing::load(pairs).unwrap();
    assert_eq!(drawing.header.version, AcadVersion::R2007);
    assert!(drawing.header.handles_enabled);
}

#[test]
fn unknown_version_rejected() {
    let pairs = vec![
        sp(0, "SECTION"),
        sp(2, "HEADER"),
        sp(9, "$ACADVER"),
        sp(1, "AC9999"),
        sp(0, "ENDSEC"),
    ];
    match Drawing::load(pairs) {
        Err(DxfError::ParseError(_)) => {},
        other => panic!("expected ParseError, got {:?}", other),
    }
}

#[test]
fn tables_with_records_round_trip() {
    let pairs = vec![
        sp(0, "SECTION"),
        sp(2, "TABLES"),
        sp(0, "TABLE"),
        sp(2, "LAYER"),
        ip(70, 1),
        sp(0, "LAYER"),
        sp(2, "0"),
        ip(62, 7),
        sp(0, "ENDTAB"),
        sp(0, "ENDSEC"),
        sp(0, "EOF"),
    ];
    let drawing = Drawing::load(pairs).unwrap();
    assert_eq!(drawing.layers.len(), 1);
    assert_eq!(drawing.layers[0].pairs, vec![sp(2, "0"), ip(62, 7)]);
}

#[test]
fn unknown_table_skipped() {
    let pairs = vec![
        sp(0, "SECTION"),
        sp(2, "TABLES"),
        sp(0, "TABLE"),
        sp(2, "GADGETS"),
        ip(70, 0),
        sp(0, "GADGET"),
        sp(2, "G1"),
        sp(0, "ENDTAB"),
        sp(0, "ENDSEC"),
        sp(0, "EOF"),
    ];
    let drawing = Drawing::load(pairs).unwrap();
    assert_eq!(drawing, Drawing::default());
}

#[test]
fn write_handles_gate() {
    let mut d = Drawing::default();
    assert!(!d.write_handles());
    d.header.handles_enabled = true;
    assert!(d.write_handles());
    d.header.handles_enabled = false;
    d.header.version = AcadVersion::R13;
    assert!(d.write_handles());
    d.header.version = AcadVersion::R2018;
    assert!(d.write_handles());
}

#[test]
fn version_identifiers_round() {
    let versions = [
        (AcadVersion::R12, "AC1009"),
        (AcadVersion::R13, "AC1012"),
        (AcadVersion::R14, "AC1014"),
        (AcadVersion::R2000, "AC1015"),
        (AcadVersion::R2004, "AC1018"),
        (AcadVersion::R2007, "AC1021"),
        (AcadVersion::R2010, "AC1024"),
        (AcadVersion::R2013, "AC1027"),
        (AcadVersion::R2018, "AC1032"),
    ];
    for (v, id) in versions.iter() {
        assert_eq!(v.id_text(), *id);
        assert_eq!(AcadVersion::from_id(id), Some(*v));
    }
    assert_eq!(AcadVersion::from_id("AC1234"), None);
}

#[test]
fn dxb_signature_sniffed() {
    assert!(is_dxb_signature("AutoCAD DXB 1.0"));
    assert!(!is_dxb_signature("AutoCAD DXB 1.1"));
    assert!(!is_dxb_signature("  0"));
    assert!(!is_dxb_signature(""));
}

#[test]
fn canonical_section_order() {
    let mut d = Drawing::default();
    d.entities.push(Entity { name: "POINT".to_string(), pairs: vec![] });
    let saved = d.save();
    let names: Vec<String> = saved
        .windows(2)
        .filter(|w| w[0] == sp(0, "SECTION"))
        .map(|w| match &w[1].value {
            CodePairValue::Str(s) => s.clone(),
            _ => String::new(),
        })
        .collect();
    assert_eq!(names, vec!["HEADER", "TABLES", "ENTITIES", "OBJECTS"]);
    assert_eq!(saved.last().unwrap(), &sp(0, "EOF"));
}

#[test]
fn error_descriptions() {
    assert_eq!(DxfError::UnexpectedEndOfInput.description(), "unexpected end of input");
    assert_eq!(DxfError::UnexpectedCode(7).description(), "unexpected code");
}

#[test]
fn swallow_table_stops_at_markers() {
    let mut cursor = CodePairCursor::new(vec![
        ip(70, 1),
        sp(0, "GADGET"),
        sp(2, "G1"),
        sp(0, "ENDTAB"),
        sp(0, "ENDSEC"),
    ]);
    Drawing::swallow_table(&mut cursor).unwrap();
    assert_eq!(cursor.next(), Some(sp(0, "ENDTAB")));
}

#[test]
fn swallow_table_needs_a_marker() {
    let mut cursor = CodePairCursor::new(vec![ip(70, 1), sp(2, "G1")]);
    match Drawing::swallow_table(&mut cursor) {
        Err(DxfError::UnexpectedEndOfInput) => {},
        other => panic!("expected UnexpectedEndOfInput, got {:?}", other),
    }
}

#[test]
fn entity_named_like_a_table_round_trips() {
    let mut d = Drawing::default();
    d.entities.push(Entity { name: "TABLE".to_string(), pairs: vec![sp(8, "0")] });
    let loaded = Drawing::load(d.save()).unwrap();
    assert_eq!(loaded, d);
}

#[test]
fn handles_flag_round_trips() {
    let mut d = Drawing::default();
    d.header.version = AcadVersion::R2018;
    d.header.handles_enabled = true;
    let saved = d.save();
    assert!(saved.contains(&sp(9, "$HANDLING")));
    assert!(saved.contains(&ip(70, 1)));
    let loaded = Drawing::load(saved).unwrap();
    assert_eq!(loaded, d);
}
