use pcb_extract::parsers::eagle::{classify_eagle_input, EagleInput};
use pcb_extract::parsers::eagle::{is_boardview_ascii, mirror_eagle_layer, mirror_layer};
use pcb_extract::parsers::eagle_binary::{
    build_section_tree, find_all_sections, find_section, is_eagle_binary, parse_string_table,
    read_record, RawRecord,
};

#[test]
fn detects_boardview_ascii_brdout() {
    let data = b"0\r\nBRDOUT: 73 5118 4724\r\n4968 1929\r\n";
    assert!(is_boardview_ascii(data));
}

#[test]
fn detects_boardview_ascii_other_sections() {
    assert!(is_boardview_ascii(b"NETS: 12\nGND\n"));
    assert!(is_boardview_ascii(b"PARTS: 5\n"));
}

#[test]
fn does_not_flag_eagle_xml_as_boardview() {
    let data = b"<?xml version=\"1.0\" encoding=\"utf-8\"?>\n<eagle version=\"9.6.2\">\n";
    assert!(!is_boardview_ascii(data));
}

#[test]
fn boardview_marker_past_512_bytes_is_ignored() {
    let mut data = vec![b' '; 600];
    data.extend_from_slice(b"NETS: 1\n");
    assert!(!is_boardview_ascii(&data));
}

#[test]
fn mirroring_swaps_sides_twice_back() {
    for l in [1u32, 16, 21, 22, 25, 26, 27, 28, 51, 52, 20, 99] {
        assert_eq!(mirror_eagle_layer(mirror_eagle_layer(l)), l);
    }
    assert_eq!(mirror_eagle_layer(1), 16);
    assert_eq!(mirror_layer(1), "B");
    assert_eq!(mirror_layer(21), "F");
    assert_eq!(mirror_layer(22), "B");
}

fn rec(sec: u8, u16_2: u16, u32_4: u32) -> [u8; 24] {
    let mut r = [0u8; 24];
    r[0] = sec;
    r[2..4].copy_from_slice(&u16_2.to_le_bytes());
    r[4..8].copy_from_slice(&u32_4.to_le_bytes());
    r
}

#[test]
fn eagle_binary_detection() {
    let mut data = vec![0u8; 24];
    assert!(!is_eagle_binary(&data));
    data[0] = 0x10;
    assert!(is_eagle_binary(&data));
    assert!(!is_eagle_binary(&data[..10]));
    assert!(!is_eagle_binary(b"<?xml version=\"1.0\" encoding=\"utf-8\"?><eagle></eagle>"));
}

#[test]
fn section_tree_follows_subsection_counts() {
    // start (1 settings record, 4 sections in all), library with 1 child, then a package
    let mut data = Vec::new();
    data.extend_from_slice(&rec(0x10, 1, 4));
    data.extend_from_slice(&rec(0x22, 0, 0));
    data.extend_from_slice(&rec(0x15, 1, 0));
    data.extend_from_slice(&rec(0x1e, 0, 0));
    let records: Vec<RawRecord> = (0..4).map(|i| read_record(&data, i * 24).unwrap()).collect();
    let tree = build_section_tree(&records).unwrap();
    assert_eq!(tree.children.len(), 2);
    assert_eq!(tree.children[1].children.len(), 1);
    assert_eq!(find_section(&tree, 0x1e).unwrap().record.data[0], 0x1e);
    assert!(find_section(&tree, 0x1b).is_none());
    assert_eq!(find_all_sections(&tree, 0x15).len(), 1);
    assert!(build_section_tree(&[]).is_err());
}

#[test]
fn read_record_past_end_reports_offset() {
    let data = vec![0u8; 30];
    match read_record(&data, 24) {
        Err(pcb_extract::error::ExtractError::ParseError(m)) => {
            assert_eq!(m, "Eagle binary: unexpected end of data at offset 24")
        }
        _ => panic!("expected an error"),
    }
}

#[test]
fn string_table_splits_at_nul() {
    let mut data = vec![0x13, 0x12, 0x99, 0x19];
    data.extend_from_slice(&7u32.to_le_bytes());
    data.extend_from_slice(b"ab\0cd\0e");
    let strings = parse_string_table(&data, 0).unwrap();
    assert_eq!(strings, vec!["ab".to_string(), "cd".to_string(), "e".to_string()]);
    assert!(parse_string_table(&data, 3).unwrap().is_empty());
}

#[test]
fn test_xml_rejected() {
    let xml = b"<?xml version=\"1.0\" encoding=\"utf-8\"?><eagle></eagle>";
    assert!(!pcb_extract::parsers::eagle_binary::is_eagle_binary(xml));
}

#[test]
fn binary_board_front_matter() {
    let err = |d: &[u8]| match pcb_extract::parsers::eagle_binary::read_binary_board(d) {
        Err(pcb_extract::error::ExtractError::ParseError(m)) => m,
        _ => panic!("expected an error"),
    };
    assert_eq!(err(&[0x10; 10]), "Eagle binary: file too short");
    assert_eq!(err(&[0x11; 24]), "Eagle binary: missing start section (0x10)");
    let mut start = rec(0x10, 0, 5);
    start[0] = 0x10;
    assert_eq!(err(&start), "Eagle binary: section count 5 exceeds file size");
    let zero = rec(0x10, 0, 0);
    assert_eq!(err(&zero), "Eagle binary: no records");
    let one = rec(0x10, 0, 1);
    let board = pcb_extract::parsers::eagle_binary::read_binary_board(&one).unwrap();
    assert_eq!(board.tree.children.len(), 0);
    assert!(board.strings.is_empty());
}

#[test]
fn rejects_boardview_with_clear_error() {
    let data = b"0\r\nBRDOUT: 73 5118 4724\r\n";
    let err = pcb_extract::parsers::eagle::classify_eagle_input(data).unwrap_err();
    let msg = err.message();
    assert!(msg.contains("OpenBoardView"), "unexpected error: {msg}");
}

#[test]
fn eagle_inputs_are_classified() {
    let mut binary = vec![0u8; 24];
    binary[0] = 0x10;
    assert_eq!(classify_eagle_input(&binary), Ok(EagleInput::Binary));
    assert_eq!(classify_eagle_input(b"<eagle/>"), Ok(EagleInput::Xml("<eagle/>")));
    match classify_eagle_input(&[0xff, 0xfe, 0x00]) {
        Err(e) => assert!(e.message().contains("Cadence Allegro")),
        Ok(_) => panic!("expected an error"),
    }
}

#[test]
fn test_is_eagle_binary() {
    // A start record in place of the board fixture, which is not at hand.
    let mut data = vec![0u8; 48];
    data[0] = 0x10;
    data[4] = 2;
    assert!(is_eagle_binary(&data));
    assert!(!is_eagle_binary(b"<?xml"));
    assert!(!is_eagle_binary(&[]));
}
