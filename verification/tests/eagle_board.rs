use pcb_extract::parsers::eagle_binary::board::{
    extract_board, extract_board_drawings, extract_packages, extract_placements, extract_tracks,
    parse_package_section, BoardDrawing, TrackItem,
};
use pcb_extract::parsers::eagle_binary::footprint::{build_footprints, lookup_package, PadShape};
use pcb_extract::parsers::eagle_binary::{RawRecord, Section};
use pcb_extract::ExtractOptions;

fn record(t: u8) -> [u8; 24] {
    let mut d = [0u8; 24];
    d[0] = t;
    d
}

fn put_i32(d: &mut [u8; 24], at: usize, v: i32) {
    d[at..at + 4].copy_from_slice(&v.to_le_bytes());
}

fn put_u16(d: &mut [u8; 24], at: usize, v: u16) {
    d[at..at + 2].copy_from_slice(&v.to_le_bytes());
}

fn leaf(data: [u8; 24]) -> Section {
    Section { record: RawRecord { data }, children: Vec::new() }
}

fn node(t: u8, children: Vec<Section>) -> Section {
    Section { record: RawRecord { data: record(t) }, children }
}

fn line(layer: u8, x1: i32, y1: i32, x2: i32, y2: i32, half_width: u16) -> Section {
    let mut d = record(0x22);
    d[3] = layer;
    put_i32(&mut d, 4, x1);
    put_i32(&mut d, 8, y1);
    put_i32(&mut d, 12, x2);
    put_i32(&mut d, 16, y2);
    put_u16(&mut d, 20, half_width);
    leaf(d)
}

fn pad(name: &[u8], x: i32, y: i32, half_drill: u16, half_dia: u16, shape: u8) -> Section {
    let mut d = record(0x2a);
    d[2] = shape;
    put_i32(&mut d, 4, x);
    put_i32(&mut d, 8, y);
    put_u16(&mut d, 12, half_drill);
    put_u16(&mut d, 14, half_dia);
    d[19..19 + name.len()].copy_from_slice(name);
    leaf(d)
}

fn smd_overflowing(layer: u8, dx2: u16, dy2: u16) -> Section {
    let mut d = record(0x2b);
    d[2] = 100;
    d[3] = layer;
    put_i32(&mut d, 4, -5);
    put_i32(&mut d, 8, 7);
    put_u16(&mut d, 12, dx2);
    put_u16(&mut d, 14, dy2);
    d[19] = 0x7f;
    leaf(d)
}

#[test]
fn package_section_reads_its_drawables() {
    let mut circle = record(0x25);
    circle[3] = 21;
    put_i32(&mut circle, 4, 10);
    put_i32(&mut circle, 8, 20);
    put_i32(&mut circle, 12, 30);
    put_u16(&mut circle, 16, 4);
    let mut rect = record(0x26);
    rect[3] = 51;
    put_i32(&mut rect, 4, -1);
    put_i32(&mut rect, 8, -2);
    put_i32(&mut rect, 12, 3);
    put_i32(&mut rect, 16, 4);
    let pkg = node(
        0x1e,
        vec![
            pad(b"1", 100, -200, 50, 80, 2),
            smd_overflowing(1, 300, 400),
            line(21, 0, 0, 1000, 0, 5),
            leaf(circle),
            leaf(rect),
            leaf(record(0x31)),
        ],
    );
    let strings = vec!["LONGNAME".to_string()];
    let mut idx = 0usize;
    let p = parse_package_section(&pkg, &strings, &mut idx);
    assert_eq!(idx, 1);
    assert_eq!(p.pads.len(), 1);
    assert_eq!(p.pads[0].name, "1");
    assert_eq!((p.pads[0].x, p.pads[0].y), (100, -200));
    assert_eq!((p.pads[0].drill, p.pads[0].diameter), (100, 160));
    assert_eq!(p.pads[0].shape, "octagon");
    assert_eq!(p.smds.len(), 1);
    assert_eq!(p.smds[0].name, "LONGNAME");
    assert_eq!((p.smds[0].dx, p.smds[0].dy), (600, 800));
    assert_eq!((p.smds[0].layer, p.smds[0].roundness), (1, 100));
    assert_eq!(p.wires.len(), 1);
    assert_eq!(p.wires[0].width, 10);
    assert_eq!(p.wires[0].x2, 1000);
    assert_eq!(p.circles.len(), 1);
    assert_eq!((p.circles[0].radius, p.circles[0].width, p.circles[0].layer), (30, 8, 21));
    assert_eq!(p.rects.len(), 1);
    assert_eq!((p.rects[0].x1, p.rects[0].y2, p.rects[0].layer), (-1, 4, 51));
}

#[test]
fn pad_shapes_follow_low_flag_bits() {
    let shapes = [(0u8, "square"), (1, "round"), (2, "octagon"), (3, "long"), (4, "offset"), (7, "round"), (0x0b, "long")];
    for (bits, name) in shapes {
        let pkg = node(0x1e, vec![pad(b"A", 0, 0, 0, 0, bits)]);
        let mut idx = 0usize;
        let p = parse_package_section(&pkg, &[], &mut idx);
        assert_eq!(p.pads[0].shape, name);
    }
}

#[test]
fn overflowing_name_without_table_entry_is_empty() {
    let pkg = node(0x1e, vec![smd_overflowing(16, 1, 1)]);
    let mut idx = 0usize;
    let p = parse_package_section(&pkg, &[], &mut idx);
    assert_eq!(p.smds[0].name, "");
    assert_eq!(idx, 0);
}

#[test]
fn libraries_hold_package_children_only() {
    let lib1 = node(0x19, vec![node(0x1e, vec![pad(b"1", 0, 0, 1, 1, 1)]), leaf(record(0x22)), node(0x1e, vec![])]);
    let lib2 = node(0x19, vec![node(0x1e, vec![smd_overflowing(1, 2, 2)])]);
    let board = node(0x1b, vec![node(0x15, vec![lib1]), node(0x15, vec![lib2])]);
    let strings = vec!["U1PAD".to_string()];
    let mut idx = 0usize;
    let libs = extract_packages(&board, &strings, &mut idx);
    assert_eq!(libs.len(), 2);
    assert_eq!(libs[0].len(), 2);
    assert_eq!(libs[0][0].pads.len(), 1);
    assert!(libs[0][1].pads.is_empty());
    assert_eq!(libs[1].len(), 1);
    assert_eq!(libs[1][0].smds[0].name, "U1PAD");
    assert_eq!(idx, 1);
}

fn board_package(x: i32, y: i32, lib: u16, pkg: u16, angle: u16, names: Option<Section>) -> Section {
    let mut d = record(0x2e);
    put_i32(&mut d, 4, x);
    put_i32(&mut d, 8, y);
    put_u16(&mut d, 12, lib);
    put_u16(&mut d, 14, pkg);
    put_u16(&mut d, 16, angle);
    Section { record: RawRecord { data: d }, children: names.into_iter().collect() }
}

fn names(name: &[u8], value: &[u8]) -> Section {
    let mut d = record(0x2f);
    d[2..2 + name.len()].copy_from_slice(name);
    d[10..10 + value.len()].copy_from_slice(value);
    leaf(d)
}

#[test]
fn placements_read_position_turn_and_names() {
    let mut overflow = record(0x2f);
    overflow[2] = 0x7f;
    overflow[10] = 0x7f;
    let board = node(
        0x1b,
        vec![
            board_package(12_000, -34_000, 1, 2, 0x1000 | 1024, Some(names(b"R1", b"10k"))),
            board_package(0, 0, 3, 4, 2048, Some(leaf(overflow))),
            board_package(5, 6, 1, 1, 0, None),
        ],
    );
    let strings = vec!["LONG_REFERENCE".to_string(), "LONG_VALUE".to_string()];
    let mut idx = 0usize;
    let ps = extract_placements(&board, &strings, &mut idx);
    assert_eq!(ps.len(), 3);
    assert_eq!((ps[0].name.as_str(), ps[0].value.as_str()), ("R1", "10k"));
    assert_eq!((ps[0].x, ps[0].y), (12_000, -34_000));
    assert_eq!((ps[0].lib_idx, ps[0].pkg_idx), (1, 2));
    assert_eq!(ps[0].angle, 1024);
    assert!(ps[0].mirrored);
    assert_eq!((ps[1].name.as_str(), ps[1].value.as_str()), ("LONG_REFERENCE", "LONG_VALUE"));
    assert_eq!(ps[1].angle, 2048);
    assert!(!ps[1].mirrored);
    assert_eq!((ps[2].name.as_str(), ps[2].value.as_str()), ("", ""));
    assert_eq!(idx, 2);
}

#[test]
fn board_drawings_are_sorted_by_layer() {
    let mut hole = record(0x28);
    put_i32(&mut hole, 4, 7);
    put_i32(&mut hole, 8, 8);
    put_u16(&mut hole, 12, 150);
    let mut text = record(0x31);
    text[16] = 0x7f;
    let board = node(
        0x1b,
        vec![
            line(20, 0, 0, 10, 0, 1),
            line(21, 1, 1, 2, 2, 2),
            line(22, 1, 1, 2, 2, 3),
            line(27, 1, 1, 2, 2, 4),
            line(52, 1, 1, 2, 2, 5),
            line(1, 1, 1, 2, 2, 6),
            leaf(hole),
            leaf(text),
            node(0x1c, vec![line(20, 9, 9, 9, 9, 9)]),
        ],
    );
    let strings = vec!["TEXT".to_string()];
    let mut idx = 0usize;
    let d = extract_board_drawings(&board, &strings, &mut idx);
    assert_eq!(idx, 1);
    assert_eq!(
        d.edges,
        vec![
            BoardDrawing::Segment { x1: 0, y1: 0, x2: 10, y2: 0, width: 2 },
            BoardDrawing::Circle { x: 7, y: 8, radius: 150, width: 0 },
        ]
    );
    assert_eq!(d.silk_f, vec![BoardDrawing::Segment { x1: 1, y1: 1, x2: 2, y2: 2, width: 4 }]);
    assert_eq!(d.silk_b.len(), 1);
    assert_eq!(d.fab_f.len(), 1);
    assert_eq!(d.fab_b, vec![BoardDrawing::Segment { x1: 1, y1: 1, x2: 2, y2: 2, width: 10 }]);
}

fn via(x: i32, y: i32, half_drill: u16, half_dia: u16) -> Section {
    let mut d = record(0x29);
    put_i32(&mut d, 4, x);
    put_i32(&mut d, 8, y);
    put_u16(&mut d, 12, half_drill);
    put_u16(&mut d, 14, half_dia);
    leaf(d)
}

#[test]
fn net_copper_goes_to_its_side() {
    let board = node(
        0x1b,
        vec![
            node(0x1c, vec![line(1, 0, 0, 5, 5, 3), line(16, 1, 2, 3, 4, 4), line(21, 0, 0, 1, 1, 1)]),
            node(0x1c, vec![via(10, 20, 100, 0), via(30, 40, 100, 300)]),
            line(1, 0, 0, 9, 9, 9),
        ],
    );
    let t = extract_tracks(&board);
    let v1 = TrackItem::Via { x: 10, y: 20, diameter: 400, drill: 200 };
    let v2 = TrackItem::Via { x: 30, y: 40, diameter: 600, drill: 200 };
    assert_eq!(t.front, vec![TrackItem::Segment { x1: 0, y1: 0, x2: 5, y2: 5, width: 6 }, v1, v2]);
    assert_eq!(t.back, vec![TrackItem::Segment { x1: 1, y1: 2, x2: 3, y2: 4, width: 8 }, v1, v2]);
}

#[test]
fn board_without_board_section_is_rejected() {
    let tree = node(0x10, vec![node(0x15, vec![])]);
    let mut idx = 0usize;
    let err = extract_board(&tree, &[], &mut idx, &ExtractOptions::default()).err().unwrap();
    assert_eq!(err.message(), "parse error: Eagle binary: no board section found");
}

#[test]
fn board_reads_strings_in_order_and_tracks_on_request() {
    let mut text = record(0x31);
    text[16] = 0x7f;
    let lib = node(0x19, vec![node(0x1e, vec![smd_overflowing(1, 1, 1)])]);
    let mut overflow = record(0x2f);
    overflow[2] = 0x7f;
    let board = node(
        0x1b,
        vec![
            node(0x15, vec![lib]),
            board_package(0, 0, 1, 1, 0, Some(leaf(overflow))),
            leaf(text),
            node(0x1c, vec![via(0, 0, 10, 20)]),
        ],
    );
    let tree = node(0x10, vec![board]);
    let strings = vec!["PAD".to_string(), "NAME".to_string(), "TEXT".to_string()];
    let mut idx = 0usize;
    let items = extract_board(&tree, &strings, &mut idx, &ExtractOptions::default()).unwrap();
    assert_eq!(idx, 3);
    assert_eq!(items.packages[0][0].smds[0].name, "PAD");
    assert_eq!(items.placements[0].name, "NAME");
    assert!(items.tracks.is_none());
    let mut idx = 0usize;
    let opts = ExtractOptions { include_tracks: true, include_nets: false };
    let items = extract_board(&tree, &strings, &mut idx, &opts).unwrap();
    let tracks = items.tracks.unwrap();
    assert_eq!(tracks.front.len(), 1);
    assert_eq!(tracks.back.len(), 1);
}

fn sample_packages() -> Vec<Vec<pcb_extract::parsers::eagle_binary::board::BinPackage>> {
    let mut circle = record(0x25);
    circle[3] = 51;
    put_i32(&mut circle, 12, 40);
    let pkg = node(
        0x1e,
        vec![
            pad(b"1", 10, 20, 100, 0, 0),
            pad(b"2", 30, 20, 100, 150, 3),
            smd_overflowing(1, 300, 400),
            line(21, 0, 0, 5, 5, 1),
            line(1, 0, 0, 5, 5, 1),
            leaf(circle),
        ],
    );
    let lib = node(0x19, vec![pkg]);
    let board = node(0x1b, vec![lib]);
    let strings = vec!["A1".to_string()];
    let mut idx = 0usize;
    extract_packages(&board, &strings, &mut idx)
}

#[test]
fn packages_are_found_by_one_based_indices() {
    let libs = sample_packages();
    assert!(lookup_package(&libs, 1, 1).is_some());
    assert!(lookup_package(&libs, 0, 1).is_none());
    assert!(lookup_package(&libs, 1, 0).is_none());
    assert!(lookup_package(&libs, 2, 1).is_none());
    assert!(lookup_package(&libs, 1, 2).is_none());
}

#[test]
fn footprints_carry_pads_and_shown_drawings() {
    let libs = sample_packages();
    let board = node(
        0x1b,
        vec![board_package(1000, 2000, 1, 1, 0, Some(names(b"U1", b"MCU"))), board_package(0, 0, 1, 1, 0x1000, None), board_package(0, 0, 9, 9, 0, None)],
    );
    let mut idx = 0usize;
    let placements = extract_placements(&board, &[], &mut idx);
    let fps = build_footprints(&libs, &placements);
    assert_eq!(fps.len(), 3);

    let top = &fps[0];
    assert_eq!((top.name.as_str(), top.value.as_str(), top.side), ("U1", "MCU", "F"));
    assert_eq!(top.pads.len(), 3);
    assert_eq!((top.pads[0].width, top.pads[0].shape, top.pads[0].pin1), (400, PadShape::Rect, true));
    assert_eq!(top.pads[0].drill, Some(200));
    assert_eq!(top.pads[0].side, None);
    assert_eq!((top.pads[1].width, top.pads[1].shape, top.pads[1].pin1), (300, PadShape::Oval, false));
    assert_eq!((top.pads[2].width, top.pads[2].height), (600, 800));
    assert_eq!((top.pads[2].shape, top.pads[2].side, top.pads[2].pin1), (PadShape::RoundRect, Some("F"), true));
    assert_eq!(top.pads[2].roundness, 100);
    assert_eq!(top.drawings.len(), 2);
    assert_eq!(top.drawings[0].side, "F");
    assert_eq!(top.drawings[0].shape, BoardDrawing::Segment { x1: 0, y1: 0, x2: 5, y2: 5, width: 2 });
    assert_eq!(top.drawings[1].side, "F");
    assert_eq!(top.drawings[1].shape, BoardDrawing::Circle { x: 0, y: 0, radius: 40, width: 0 });

    let bottom = &fps[1];
    assert!(bottom.mirrored);
    assert_eq!(bottom.side, "B");
    assert_eq!(bottom.pads[2].side, Some("B"));
    assert_eq!(bottom.drawings[0].side, "B");
    assert_eq!(bottom.drawings[1].side, "B");

    assert!(fps[2].pads.is_empty());
    assert!(fps[2].drawings.is_empty());
}
