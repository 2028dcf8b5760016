use pcb_extract::error::ExtractError;
use pcb_extract::parsers::gdsii::bsp::BspIndex;
use pcb_extract::parsers::gdsii::reader::{self, RecordData};
use pcb_extract::parsers::gdsii::tile::{ring_bbox, WorldBox};
use pcb_extract::parsers::gdsii::tiler::{ceil_pow2, tile_open, xml_escape};
use pcb_extract::parsers::gdsii::tileset::palette_color;
use pcb_extract::parsers::gdsii::{layer_name, layer_side, read_library, GdsElement, MAG_ONE};

fn rec(out: &mut Vec<u8>, rt: u8, dt: u8, payload: &[u8]) {
    let len = (4 + payload.len()) as u16;
    out.extend_from_slice(&len.to_be_bytes());
    out.push(rt);
    out.push(dt);
    out.extend_from_slice(payload);
}

fn i16s(v: &[i16]) -> Vec<u8> {
    v.iter().flat_map(|x| x.to_be_bytes()).collect()
}

fn i32s(v: &[i32]) -> Vec<u8> {
    v.iter().flat_map(|x| x.to_be_bytes()).collect()
}

fn ascii(s: &str) -> Vec<u8> {
    let mut b = s.as_bytes().to_vec();
    if b.len() % 2 == 1 {
        b.push(0);
    }
    b
}

/// A library with a leaf cell holding a boundary and a path, and a top cell
/// placing it.
fn sample_library() -> Vec<u8> {
    let mut d = Vec::new();
    rec(&mut d, 0x00, 0x02, &i16s(&[600]));
    rec(&mut d, 0x01, 0x02, &i16s(&[0; 12]));
    rec(&mut d, 0x02, 0x06, &ascii("LIB"));
    let mut units = Vec::new();
    units.extend_from_slice(&0x3E4189374BC6A7F0u64.to_be_bytes());
    units.extend_from_slice(&0x3944B82FA09B5A54u64.to_be_bytes());
    rec(&mut d, 0x03, 0x05, &units);
    // Leaf cell.
    rec(&mut d, 0x05, 0x02, &i16s(&[0; 12]));
    rec(&mut d, 0x06, 0x06, &ascii("LEAF"));
    rec(&mut d, 0x08, 0x00, &[]);
    rec(&mut d, 0x0D, 0x02, &i16s(&[3]));
    rec(&mut d, 0x0E, 0x02, &i16s(&[0]));
    rec(&mut d, 0x10, 0x03, &i32s(&[0, 0, 10, 0, 10, 10, 0, 0]));
    rec(&mut d, 0x11, 0x00, &[]);
    rec(&mut d, 0x09, 0x00, &[]);
    rec(&mut d, 0x0D, 0x02, &i16s(&[1]));
    rec(&mut d, 0x0F, 0x03, &i32s(&[250]));
    rec(&mut d, 0x10, 0x03, &i32s(&[0, 0, 100, 0]));
    rec(&mut d, 0x11, 0x00, &[]);
    rec(&mut d, 0x07, 0x00, &[]);
    // Top cell.
    rec(&mut d, 0x05, 0x02, &i16s(&[0; 12]));
    rec(&mut d, 0x06, 0x06, &ascii("TOP"));
    rec(&mut d, 0x0A, 0x00, &[]);
    rec(&mut d, 0x12, 0x06, &ascii("LEAF"));
    rec(&mut d, 0x10, 0x03, &i32s(&[5, 7]));
    rec(&mut d, 0x11, 0x00, &[]);
    rec(&mut d, 0x0C, 0x00, &[]);
    rec(&mut d, 0x0D, 0x02, &i16s(&[2]));
    rec(&mut d, 0x10, 0x03, &i32s(&[1, 2]));
    rec(&mut d, 0x19, 0x06, &ascii("HI"));
    rec(&mut d, 0x11, 0x00, &[]);
    rec(&mut d, 0x07, 0x00, &[]);
    rec(&mut d, 0x04, 0x00, &[]);
    d
}

#[test]
fn test_parse_gdsii_no_header_fails() {
    let data = vec![0x00, 0x04, 0xFF, 0x00]; // invalid record type
    let result = read_library(&data);
    assert!(result.is_err());
}

#[test]
fn test_parse_empty_fails() {
    let result = read_library(&[]);
    assert!(result.is_err());
}

#[test]
fn test_layer_name() {
    assert_eq!(layer_name(0), "F");
    assert_eq!(layer_name(1), "B");
    assert_eq!(layer_name(2), "In2");
    assert_eq!(layer_name(31), "In31");
    assert_eq!(layer_name(63), "L63");
}

#[test]
fn layer_names_and_sides_outside_range() {
    assert_eq!(layer_name(-4), "L-4");
    assert_eq!(layer_name(32), "L32");
    assert_eq!(layer_side(1), "B");
    assert_eq!(layer_side(0), "F");
    assert_eq!(layer_side(7), "F");
}

#[test]
fn test_parse_records_rejects_short_length() {
    // A record claiming length < 4 is invalid.
    let bytes = [0x00, 0x02, 0x00, 0x02];
    assert!(reader::parse_records(&bytes).is_err());
}

#[test]
fn record_errors_name_the_offset() {
    match reader::parse_records(&[0x00, 0x02, 0x00, 0x02]) {
        Err(ExtractError::ParseError(m)) => {
            assert_eq!(m, "GDSII: invalid record length 2 at offset 0")
        }
        other => panic!("unexpected {other:?}"),
    }
    match reader::parse_records(&[0x00, 0x04, 0x00, 0x00, 0x00, 0x10, 0x02, 0x02]) {
        Err(ExtractError::ParseError(m)) => assert_eq!(
            m,
            "GDSII: record at offset 4 extends past end of data (length 16)"
        ),
        other => panic!("unexpected {other:?}"),
    }
    match reader::parse_records(&[0x00, 0x04, 0x18, 0x00]) {
        Err(ExtractError::ParseError(m)) => {
            assert_eq!(m, "GDSII: unknown record type 0x18 at offset 0")
        }
        other => panic!("unexpected {other:?}"),
    }
    match reader::parse_records(&[0x00, 0x04, 0x2D, 0x0A]) {
        Err(ExtractError::ParseError(m)) => assert_eq!(
            m,
            "GDSII: invalid data type 0x0A for record type 0x2D at offset 0"
        ),
        other => panic!("unexpected {other:?}"),
    }
}

#[test]
fn records_decode_payloads() {
    let mut d = Vec::new();
    rec(&mut d, 0x0D, 0x02, &[0xFF, 0xFE, 0x00, 0x07, 0x01]);
    rec(&mut d, 0x10, 0x03, &[0x00, 0x00, 0x01, 0x00, 0xFF, 0xFF]);
    rec(&mut d, 0x06, 0x06, b"AB\0\0");
    rec(&mut d, 0x1B, 0x05, &MAG_ONE.to_be_bytes());
    rec(&mut d, 0x04, 0x00, &[]);
    rec(&mut d, 0x0D, 0x02, &[0x00, 0x01]); // after ENDLIB: not read
    let recs = reader::parse_records(&d).unwrap();
    assert_eq!(recs.len(), 5);
    assert_eq!(reader::get_i16(&recs[0].data), vec![-2, 7]);
    assert_eq!(reader::get_i32(&recs[1].data), vec![256]);
    assert_eq!(reader::get_ascii(&recs[2].data), "AB");
    assert_eq!(reader::get_real8(&recs[3].data), vec![MAG_ONE]);
    assert!(matches!(recs[4].data, RecordData::Empty));
    assert_eq!(reader::read_u16(&d, 0).unwrap(), 9);
    assert!(reader::read_u16(&d, d.len() - 1).is_err());
}

#[test]
fn lenient_reader_keeps_going() {
    let mut d = Vec::new();
    rec(&mut d, 0x18, 0x0A, &[1, 2]);
    rec(&mut d, 0x04, 0x00, &[]);
    rec(&mut d, 0x0D, 0x02, &i16s(&[9]));
    let recs = pcb_extract::parsers::gdsii::parse_records(&d).unwrap();
    assert_eq!(recs.len(), 3);
    assert!(matches!(recs[0].data, RecordData::Empty));
    assert_eq!(reader::get_i16(&recs[2].data), vec![9]);
}

#[test]
fn library_structures_and_top_cell() {
    let lib = read_library(&sample_library()).unwrap();
    assert_eq!(lib.libname, "LIB");
    assert_eq!(lib.units, Some((0x3E4189374BC6A7F0, 0x3944B82FA09B5A54)));
    assert_eq!(lib.structures.len(), 2);
    assert_eq!(lib.structures[0].name, "LEAF");
    assert_eq!(lib.structures[1].name, "TOP");
    assert_eq!(lib.top, 1);
    match &lib.structures[0].elements[0] {
        GdsElement::Boundary { layer, xy } => {
            assert_eq!(*layer, 3);
            assert_eq!(xy, &vec![(0, 0), (10, 0), (10, 10), (0, 0)]);
        }
        other => panic!("unexpected {other:?}"),
    }
    match &lib.structures[0].elements[1] {
        GdsElement::Path { layer, width, xy } => {
            assert_eq!((*layer, *width), (1, 250));
            assert_eq!(xy, &vec![(0, 0), (100, 0)]);
        }
        other => panic!("unexpected {other:?}"),
    }
    match &lib.structures[1].elements[0] {
        GdsElement::SRef { sname, xy, strans, mag, angle } => {
            assert_eq!(sname, "LEAF");
            assert_eq!(*xy, (5, 7));
            assert_eq!((*strans, *mag, *angle), (0, MAG_ONE, 0));
        }
        other => panic!("unexpected {other:?}"),
    }
    match &lib.structures[1].elements[1] {
        GdsElement::Text { layer, xy, text } => {
            assert_eq!((*layer, *xy), (2, (1, 2)));
            assert_eq!(text, "HI");
        }
        other => panic!("unexpected {other:?}"),
    }
}

#[test]
fn library_errors() {
    let err = |d: &[u8]| match read_library(d) {
        Err(ExtractError::ParseError(m)) => m,
        _ => panic!("expected an error"),
    };
    assert_eq!(err(&[0, 4, 0]), "GDSII: file too small");
    assert_eq!(err(&[0, 4, 1, 0]), "GDSII: missing HEADER record");
    assert_eq!(err(&[0, 4, 0, 0]), "GDSII: no structures found");
    let mut d = Vec::new();
    rec(&mut d, 0x00, 0x02, &i16s(&[600]));
    rec(&mut d, 0x05, 0x02, &i16s(&[0; 12]));
    rec(&mut d, 0x08, 0x00, &[]);
    assert_eq!(err(&d), "GDSII: expected STRNAME after BGNSTR");
}

#[test]
fn world_box_operations() {
    let mut b = WorldBox::empty();
    assert!(b.is_empty());
    b.expand_point(3, -2);
    assert_eq!(b, WorldBox { minx: 3, miny: -2, maxx: 3, maxy: -2 });
    b.union(&WorldBox { minx: 0, miny: 0, maxx: 10, maxy: 5 });
    assert_eq!(b, WorldBox { minx: 0, miny: -2, maxx: 10, maxy: 5 });
    let before = b;
    b.union(&WorldBox::empty());
    assert_eq!(b, before);
    let touching = WorldBox { minx: 10, miny: 5, maxx: 20, maxy: 9 };
    assert!(b.intersects(&touching) && touching.intersects(&b));
    assert!(!b.intersects(&WorldBox { minx: 11, miny: 0, maxx: 12, maxy: 1 }));
    assert_eq!(
        ring_bbox(&[[1, 9], [-3, 4], [7, 2]]),
        WorldBox { minx: -3, miny: 2, maxx: 7, maxy: 9 }
    );
    assert!(ring_bbox(&[]).is_empty());
}

fn grid() -> Vec<WorldBox> {
    let mut v = Vec::new();
    for gy in 0..20 {
        for gx in 0..20 {
            let x = gx * 10;
            let y = gy * 10;
            v.push(WorldBox { minx: x, miny: y, maxx: x + 4, maxy: y + 4 });
        }
    }
    v.push(WorldBox { minx: 0, miny: 0, maxx: 200, maxy: 4 });
    v.push(WorldBox { minx: 0, miny: 0, maxx: 4, maxy: 200 });
    v
}

fn brute_force(boxes: &[WorldBox], q: &WorldBox) -> Vec<u32> {
    let mut ids: Vec<u32> = boxes
        .iter()
        .enumerate()
        .filter(|(_, b)| b.intersects(q))
        .map(|(i, _)| i as u32)
        .collect();
    ids.sort_unstable();
    ids
}

#[test]
fn each_record_finds_itself() {
    let boxes = grid();
    let idx = BspIndex::build(boxes.clone());
    assert!(idx.node_count() > 1);
    for (i, b) in boxes.iter().enumerate() {
        let hits = idx.query(b);
        assert!(hits.contains(&(i as u32)), "record {i} not returned by a query of its own box");
    }
}

#[test]
fn query_matches_brute_force() {
    let boxes = grid();
    let idx = BspIndex::build(boxes.clone());
    let queries = [
        WorldBox { minx: 0, miny: 0, maxx: 200, maxy: 200 },
        WorldBox { minx: 0, miny: 0, maxx: 5, maxy: 5 },
        WorldBox { minx: 95, miny: 95, maxx: 115, maxy: 115 },
        WorldBox { minx: 1000, miny: 1000, maxx: 2000, maxy: 2000 },
        WorldBox { minx: -50, miny: 50, maxx: 3, maxy: 60 },
    ];
    for q in &queries {
        let mut got = idx.query(q);
        got.sort_unstable();
        assert_eq!(got, brute_force(&boxes, q), "mismatch for {q:?}");
    }
}

#[test]
fn empty_index_is_safe() {
    let idx = BspIndex::build(vec![]);
    assert!(idx.is_empty());
    assert_eq!(idx.len(), 0);
    assert!(idx
        .query(&WorldBox { minx: 0, miny: 0, maxx: 10, maxy: 10 })
        .is_empty());
}

#[test]
fn all_straddlers_still_terminates_and_is_correct() {
    let boxes: Vec<WorldBox> = (0..500)
        .map(|_| WorldBox { minx: 0, miny: 0, maxx: 1000, maxy: 1000 })
        .collect();
    let idx = BspIndex::build(boxes.clone());
    let q = WorldBox { minx: 10, miny: 10, maxx: 20, maxy: 20 };
    let mut got = idx.query(&q);
    got.sort_unstable();
    assert_eq!(got, brute_force(&boxes, &q));
    assert_eq!(idx.bounds, WorldBox { minx: 0, miny: 0, maxx: 1000, maxy: 1000 });
}

#[test]
fn tiler_helpers() {
    assert_eq!(ceil_pow2(0), 1);
    assert_eq!(ceil_pow2(1), 1);
    assert_eq!(ceil_pow2(5), 8);
    assert_eq!(ceil_pow2(1024), 1024);
    assert_eq!(ceil_pow2(1025), 2048);
    assert_eq!(xml_escape("a<b>&c\"d"), "a&lt;b&gt;&amp;c\"d");
    assert_eq!(
        tile_open(&WorldBox { minx: 0, miny: -10, maxx: 100, maxy: 90 }),
        "<svg xmlns=\"http://www.w3.org/2000/svg\" width=\"512\" height=\"512\" viewBox=\"0 -90 100 100\"><g transform=\"scale(1,-1)\">"
    );
}

#[test]
fn tileset_palette() {
    assert_eq!(palette_color(0, 0), "#7aa2f7");
    assert_eq!(palette_color(1, 0), "#ff9e64");
    assert_eq!(palette_color(10, 0), "#c0caf5");
    assert_eq!(palette_color(-1, 0), "#f7768e");
    assert_eq!(palette_color(-1, -5), "#7aa2f7");
    assert_eq!(palette_color(3, 7), "#7dcfff");
}

#[test]
fn empty_extents_do_not_hide_proper_ones() {
    let mut boxes = grid();
    for _ in 0..40 {
        boxes.push(WorldBox { minx: i64::MAX, miny: i64::MAX, maxx: i64::MIN, maxy: i64::MIN });
    }
    let idx = BspIndex::build(boxes.clone());
    for q in [WorldBox { minx: 0, miny: 0, maxx: 200, maxy: 200 }, WorldBox { minx: 95, miny: 95, maxx: 115, maxy: 115 }] {
        let mut got = idx.query(&q);
        got.sort_unstable();
        assert_eq!(got, brute_force(&boxes, &q), "mismatch for {q:?}");
    }
}
