use pcb_extract::parsers::altium::records::{
    parse_arcs, parse_components, parse_pads, parse_texts, read_f64_bits, read_u32_le,
};
use std::collections::HashMap;

fn make_record(pairs: &[(&str, &str)]) -> Vec<(String, String)> {
    pairs.iter().map(|(k, v)| (k.to_string(), v.to_string())).collect()
}

fn le32(v: u32) -> [u8; 4] {
    v.to_le_bytes()
}

fn sub(tag: u8, body: &[u8]) -> Vec<u8> {
    let mut v = vec![tag];
    v.extend(le32(body.len() as u32));
    v.extend_from_slice(body);
    v
}

fn put_i32(g: &mut [u8], at: usize, v: i32) {
    g[at..at + 4].copy_from_slice(&v.to_le_bytes());
}

#[test]
fn test_comment_used_when_present() {
    let record = make_record(&[
        ("SOURCEDESIGNATOR", "R1"),
        ("PATTERN", "0402"),
        ("COMMENT", "10k"),
        ("SOURCEDESCRIPTION", "Thick Film Resistors - SMD 10 kOhm 1%"),
        ("LAYER", "TOP"),
        ("X", "0"),
        ("Y", "0"),
        ("ROTATION", "0"),
    ]);
    let components = parse_components(&[record], &HashMap::new());
    assert_eq!(components[0].comment, "10k");
}

#[test]
fn test_sourcedescription_fallback_when_comment_absent() {
    let record = make_record(&[
        ("SOURCEDESIGNATOR", "R1"),
        ("PATTERN", "0402"),
        ("SOURCEDESCRIPTION", "Thick Film Resistors - SMD 10 kOhm 1%"),
        ("LAYER", "TOP"),
        ("X", "0"),
        ("Y", "0"),
        ("ROTATION", "0"),
    ]);
    let components = parse_components(&[record], &HashMap::new());
    assert_eq!(components[0].comment, "Thick Film Resistors - SMD 10 kOhm 1%");
}

#[test]
fn test_empty_comment_falls_back_to_sourcedescription() {
    let record = make_record(&[
        ("SOURCEDESIGNATOR", "C1"),
        ("PATTERN", "0402"),
        ("COMMENT", ""),
        ("SOURCEDESCRIPTION", "Generic Capacitor, 100nF"),
        ("LAYER", "TOP"),
        ("X", "0"),
        ("Y", "0"),
        ("ROTATION", "0"),
    ]);
    let components = parse_components(&[record], &HashMap::new());
    assert_eq!(components[0].comment, "Generic Capacitor, 100nF");
}

#[test]
fn components_are_filtered_and_filled() {
    let records = vec![
        make_record(&[("RECORD", "component"), ("DESIGNATOR", "U1"), ("X", "100mil"), ("LAYER", "BOTTOM")]),
        make_record(&[("RECORD", "Net"), ("NAME", "GND")]),
        make_record(&[("PATTERN", "SOT23"), ("ROTATION", "90.5")]),
    ];
    let cs = parse_components(&records, &HashMap::new());
    assert_eq!(cs.len(), 2);
    assert_eq!(cs[0].designator, "U1");
    assert_eq!(cs[0].x.as_deref(), Some("100mil"));
    assert_eq!(cs[0].y, None);
    assert_eq!(cs[0].layer, 32);
    assert_eq!(cs[0].pattern, "");
    assert_eq!(cs[1].pattern, "SOT23");
    assert_eq!(cs[1].rotation.as_deref(), Some("90.5"));
    assert_eq!(cs[1].designator, "");
    assert_eq!(cs[1].layer, 1);
}

#[test]
fn little_endian_fields() {
    let data = [1u8, 2, 3, 4, 5, 6, 7, 8, 9];
    assert_eq!(read_u32_le(&data, 0), 0x04030201);
    assert_eq!(read_u32_le(&data, 6), 0);
    assert_eq!(read_f64_bits(&data, 1), 0x0908070605040302);
    assert_eq!(read_f64_bits(&data, 2), 0);
    assert_eq!(f64::from_bits(read_f64_bits(&1.5f64.to_le_bytes(), 0)), 1.5);
}

#[test]
fn arcs_keep_angle_bits() {
    let mut body = vec![0u8; 45];
    body[0] = 33;
    put_i32(&mut body, 13, 1000);
    put_i32(&mut body, 21, -7);
    body[25..33].copy_from_slice(&45.0f64.to_le_bytes());
    body[33..41].copy_from_slice(&270.0f64.to_le_bytes());
    put_i32(&mut body, 41, 254);
    let mut data = sub(1, &body);
    data.extend(sub(1, &[0u8; 44]));
    let arcs = parse_arcs(&data);
    assert_eq!(arcs.len(), 1);
    assert_eq!(arcs[0].layer, 33);
    assert_eq!(arcs[0].center_x, 1000);
    assert_eq!(arcs[0].radius, -7);
    assert_eq!(f64::from_bits(arcs[0].start_angle), 45.0);
    assert_eq!(f64::from_bits(arcs[0].end_angle), 270.0);
    assert_eq!(arcs[0].width, 254);
}

fn pad_geometry(len: usize, layer: u8, x: i32, rot_at: usize, rot: f64) -> Vec<u8> {
    let mut g = vec![0u8; len];
    g[0] = layer;
    put_i32(&mut g, if rot_at == 52 { 13 } else { 23 }, x);
    g[rot_at..rot_at + 8].copy_from_slice(&rot.to_le_bytes());
    g
}

fn pad_v6(name: &str, geom: &[u8]) -> Vec<u8> {
    let mut body = vec![name.len() as u8];
    body.extend_from_slice(name.as_bytes());
    let mut v = sub(0x02, &body);
    v.extend(sub(0x00, &[9, 9, 9]));
    v.extend(le32(8));
    v.extend([0u8; 8]);
    v.extend(le32(geom.len() as u32));
    v.extend_from_slice(geom);
    v
}

#[test]
fn pads_in_the_fine_layout() {
    let mut data = pad_v6("1", &pad_geometry(120, 1, 500, 52, 90.0));
    data.extend(pad_v6("A2", &pad_geometry(64, 32, -500, 52, 0.0)));
    let pads = parse_pads(&data, true);
    assert_eq!(pads.len(), 2);
    assert_eq!(pads[0].name, "1");
    assert_eq!(pads[0].layer, 1);
    assert_eq!(pads[0].x, 500);
    assert_eq!(f64::from_bits(pads[0].rotation), 90.0);
    assert_eq!(pads[1].name, "A2");
    assert_eq!(pads[1].x, -500);
    // A pad whose chunks are all short has no geometry.
    let mut short = pad_v6("3", &[0u8; 20]);
    short.extend([0u8; 4]);
    assert!(parse_pads(&short, true).is_empty());
    assert!(parse_pads(&[0u8; 12], true).is_empty());
}

#[test]
fn pads_in_the_older_layout() {
    let mut data = sub(7, b"P1\0\0");
    data.extend(sub(7, &pad_geometry(70, 74, 1234, 62, 45.0)));
    data.extend(sub(8, &[0u8; 40]));
    data.extend(sub(7, b"P2"));
    data.extend(sub(7, &[0u8; 10]));
    data.extend(sub(7, &[0u8; 5]));
    data.extend(sub(7, b"P3"));
    let pads = parse_pads(&data, false);
    assert_eq!(pads.len(), 1);
    assert_eq!(pads[0].name, "P1");
    assert_eq!(pads[0].layer, 74);
    assert_eq!(pads[0].x, 1234);
    assert_eq!(f64::from_bits(pads[0].rotation), 45.0);
}

fn text_geometry(len: usize, height: i32, rot: f64) -> Vec<u8> {
    let mut g = vec![0u8; len];
    g[0] = 33;
    put_i32(&mut g, 21, height);
    g[27..35].copy_from_slice(&rot.to_le_bytes());
    g
}

#[test]
fn texts_in_both_layouts() {
    let mut data = sub(0x05, b".Designator\0");
    data.extend(le32(40));
    data.extend(text_geometry(40, 600, 180.0));
    data.extend(sub(0x05, b"hello"));
    data.extend(le32(35));
    data.extend(text_geometry(35, 300, 0.0));
    let texts = parse_texts(&data, true);
    assert_eq!(texts.len(), 2);
    assert_eq!(texts[0].text, ".Designator");
    assert!(texts[0].is_designator && !texts[0].is_comment);
    assert_eq!(texts[0].height, 600);
    assert_eq!(f64::from_bits(texts[0].rotation), 180.0);
    assert_eq!(texts[1].text, "hello");
    assert!(!texts[1].is_designator);

    let mut old = sub(1, b".Comment\0");
    old.extend(sub(1, &text_geometry(41, 100, 90.0)));
    old.extend(sub(1, b"short"));
    old.extend(sub(1, &[0u8; 40]));
    old.extend(sub(1, b"odd one out"));
    let texts = parse_texts(&old, false);
    assert_eq!(texts.len(), 1);
    assert!(texts[0].is_comment);
    assert_eq!(texts[0].height, 100);
}
