use pcb_extract::error::ExtractError;
use pcb_extract::parsers::gdsii::tile::{stream_cells, CellElem};
use pcb_extract::parsers::gdsii::MAG_ONE;

fn rec(out: &mut Vec<u8>, rt: u8, dt: u8, payload: &[u8]) {
    let len = (4 + payload.len()) as u16;
    out.extend_from_slice(&len.to_be_bytes());
    out.push(rt);
    out.push(dt);
    out.extend_from_slice(payload);
}

fn i16s(v: &[i16]) -> Vec<u8> {
    v.iter().flat_map(|x| x.to_be_bytes()).collect()
}

fn i32s(v: &[i32]) -> Vec<u8> {
    v.iter().flat_map(|x| x.to_be_bytes()).collect()
}

fn ascii(s: &str) -> Vec<u8> {
    let mut b = s.as_bytes().to_vec();
    if b.len() % 2 == 1 {
        b.push(0);
    }
    b
}

fn header(d: &mut Vec<u8>, meters_per_dbu: u64) {
    rec(d, 0x00, 0x02, &i16s(&[600]));
    rec(d, 0x01, 0x02, &i16s(&[0; 12]));
    rec(d, 0x02, 0x06, &ascii("LIB"));
    let mut units = Vec::new();
    units.extend_from_slice(&0x3E4189374BC6A7F0u64.to_be_bytes());
    units.extend_from_slice(&meters_per_dbu.to_be_bytes());
    rec(d, 0x03, 0x05, &units);
}

/// A leaf cell with a boundary of datatype 7, a box and a text; a top cell
/// that places the leaf by SREF and AREF.
fn sample() -> Vec<u8> {
    let mut d = Vec::new();
    header(&mut d, 0x3944B82FA09B5A54);
    rec(&mut d, 0x05, 0x02, &i16s(&[0; 12]));
    rec(&mut d, 0x06, 0x06, &ascii("LEAF"));
    rec(&mut d, 0x08, 0x00, &[]);
    rec(&mut d, 0x0D, 0x02, &i16s(&[3]));
    rec(&mut d, 0x0E, 0x02, &i16s(&[7]));
    rec(&mut d, 0x10, 0x03, &i32s(&[0, 0, 10, 0, 10, 10, 0, 0]));
    rec(&mut d, 0x11, 0x00, &[]);
    rec(&mut d, 0x2D, 0x00, &[]);
    rec(&mut d, 0x0D, 0x02, &i16s(&[5]));
    rec(&mut d, 0x21, 0x02, &i16s(&[2]));
    rec(&mut d, 0x10, 0x03, &i32s(&[1, 2, 3, 4]));
    rec(&mut d, 0x11, 0x00, &[]);
    rec(&mut d, 0x0C, 0x00, &[]);
    rec(&mut d, 0x0D, 0x02, &i16s(&[9]));
    rec(&mut d, 0x16, 0x02, &i16s(&[4]));
    rec(&mut d, 0x1A, 0x01, &[0x80, 0x00]);
    rec(&mut d, 0x10, 0x03, &i32s(&[5, 6]));
    rec(&mut d, 0x19, 0x06, &ascii("VDD"));
    rec(&mut d, 0x11, 0x00, &[]);
    rec(&mut d, 0x07, 0x00, &[]);
    rec(&mut d, 0x05, 0x02, &i16s(&[0; 12]));
    rec(&mut d, 0x06, 0x06, &ascii("TOP"));
    rec(&mut d, 0x0A, 0x00, &[]);
    rec(&mut d, 0x12, 0x06, &ascii("LEAF"));
    rec(&mut d, 0x10, 0x03, &i32s(&[100, 200]));
    rec(&mut d, 0x11, 0x00, &[]);
    rec(&mut d, 0x0B, 0x00, &[]);
    rec(&mut d, 0x12, 0x06, &ascii("LEAF"));
    rec(&mut d, 0x1B, 0x05, &0x4120000000000000u64.to_be_bytes());
    rec(&mut d, 0x13, 0x02, &i16s(&[3, 2]));
    rec(&mut d, 0x10, 0x03, &i32s(&[0, 0, 300, 0, 0, 200]));
    rec(&mut d, 0x11, 0x00, &[]);
    rec(&mut d, 0x07, 0x00, &[]);
    rec(&mut d, 0x04, 0x00, &[]);
    d
}

#[test]
fn cells_keep_datatypes_boxes_and_texts() {
    let tree = stream_cells(&sample()).unwrap();
    assert_eq!(tree.cells.len(), 2);
    assert_eq!(tree.cells[0].name, "LEAF");
    assert_eq!(tree.meters_per_dbu, Some(0x3944B82FA09B5A54));
    match &tree.cells[0].elems[..] {
        [CellElem::Boundary { layer: 3, datatype: 7, xy }, CellElem::Box { layer: 5, datatype: 0, xy: bx }, CellElem::Text { layer, datatype, xy: at, text, strans, mag, angle }] => {
            assert_eq!(xy.len(), 4);
            assert_eq!(bx, &vec![(1, 2), (3, 4)]);
            assert_eq!((*layer, *datatype, *at), (9, 4, (5, 6)));
            assert_eq!(text, "VDD");
            // A bit-array STRANS is not read as a 16-bit integer.
            assert_eq!(*strans, 0);
            assert_eq!((*mag, *angle), (MAG_ONE, 0));
        }
        other => panic!("unexpected leaf elements {other:?}"),
    }
    match &tree.cells[1].elems[..] {
        [CellElem::SRef { sname, xy, mag, .. }, CellElem::ARef { cols, rows, xy: grid, mag: amag, .. }] => {
            assert_eq!(sname, "LEAF");
            assert_eq!(*xy, (100, 200));
            assert_eq!(*mag, MAG_ONE);
            assert_eq!((*cols, *rows), (3, 2));
            assert_eq!(grid.len(), 3);
            assert_eq!(*amag, 0x4120000000000000);
        }
        other => panic!("unexpected top elements {other:?}"),
    }
    // LEAF is placed, TOP is not.
    assert_eq!(tree.top, Some(1));
}

#[test]
fn top_cell_rules() {
    // Without references the first cell is the top.
    let mut d = Vec::new();
    header(&mut d, 0x3944B82FA09B5A54);
    for name in ["A", "B"] {
        rec(&mut d, 0x05, 0x02, &i16s(&[0; 12]));
        rec(&mut d, 0x06, 0x06, &ascii(name));
        rec(&mut d, 0x07, 0x00, &[]);
    }
    let tree = stream_cells(&d).unwrap();
    assert_eq!(tree.top, Some(0));
    // A cell placing itself leaves no unplaced cell: the last is the top.
    let mut d = Vec::new();
    header(&mut d, 0);
    rec(&mut d, 0x05, 0x02, &i16s(&[0; 12]));
    rec(&mut d, 0x06, 0x06, &ascii("SELF"));
    rec(&mut d, 0x0A, 0x00, &[]);
    rec(&mut d, 0x12, 0x06, &ascii("SELF"));
    rec(&mut d, 0x11, 0x00, &[]);
    rec(&mut d, 0x07, 0x00, &[]);
    let tree = stream_cells(&d).unwrap();
    assert_eq!(tree.top, Some(0));
    // A zero database unit is not positive.
    assert_eq!(tree.meters_per_dbu, None);
    // No cells, no top.
    let mut d = Vec::new();
    header(&mut d, 0x3944B82FA09B5A54);
    rec(&mut d, 0x04, 0x00, &[]);
    assert_eq!(stream_cells(&d).unwrap().top, None);
}

#[test]
fn unnamed_structures_are_skipped() {
    let mut d = Vec::new();
    header(&mut d, 0x3944B82FA09B5A54);
    rec(&mut d, 0x05, 0x02, &i16s(&[0; 12]));
    rec(&mut d, 0x08, 0x00, &[]);
    rec(&mut d, 0x11, 0x00, &[]);
    rec(&mut d, 0x07, 0x00, &[]);
    let tree = stream_cells(&d).unwrap();
    assert!(tree.cells.is_empty());
    match stream_cells(&[0x00, 0x02, 0x00, 0x02]) {
        Err(ExtractError::ParseError(_)) => {}
        other => panic!("unexpected {other:?}"),
    }
}
