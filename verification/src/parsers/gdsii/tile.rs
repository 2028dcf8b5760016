//! Integer extents of placed GDSII records, in world nanometers, and the
//! cell model that the tile renderer places them from.
use vstd::prelude::*;

use super::reader::{
    ascii_value, get_ascii, get_i16, get_i32, get_real8, get_xy_pairs, i16_values, i32_values, real8_values,
    records_view, xy_pairs, Record, RecordData, RecordView, ANGLE, AREF, BGNSTR, BOUNDARY, COLROW, DATATYPE,
    ENDEL, ENDSTR, LAYER, MAG, PATH, PATHTYPE, SNAME, SREF, STRANS, STRING, STRNAME, TEXT, TEXTTYPE, WIDTH, XY,
};
use super::{contains_name, has_name, MAG_ONE};
use super::reader::{parse_records, records_spec, UNITS};
use crate::error::ExtractError;

verus! {

/// Axis-aligned extent in world nanometers. A box with a minimum above its
/// maximum on either axis is empty.
#[derive(Debug, Clone, Copy, PartialEq, Eq, Structural)]
pub struct WorldBox {
    pub minx: i64,
    pub miny: i64,
    pub maxx: i64,
    pub maxy: i64,
}

/// Whether the point `(x, y)` lies in the box (edges included).
pub open spec fn box_contains(b: WorldBox, x: int, y: int) -> bool {
    b.minx <= x <= b.maxx && b.miny <= y <= b.maxy
}

/// Whether a box holds no point.
pub open spec fn box_is_empty(b: WorldBox) -> bool {
    b.minx > b.maxx || b.miny > b.maxy
}

/// Whether two boxes overlap or touch.
pub open spec fn boxes_intersect(a: WorldBox, b: WorldBox) -> bool {
    a.minx <= b.maxx && a.maxx >= b.minx && a.miny <= b.maxy && a.maxy >= b.miny
}

/// The smallest box holding `b` and the point `(x, y)`.
pub open spec fn expanded(b: WorldBox, x: i64, y: i64) -> WorldBox {
    WorldBox {
        minx: if x < b.minx { x } else { b.minx },
        miny: if y < b.miny { y } else { b.miny },
        maxx: if x > b.maxx { x } else { b.maxx },
        maxy: if y > b.maxy { y } else { b.maxy },
    }
}

/// The box grown to hold `other`'s corners, or unchanged when `other` is
/// empty.
pub open spec fn united(b: WorldBox, other: WorldBox) -> WorldBox {
    if box_is_empty(other) {
        b
    } else {
        expanded(expanded(b, other.minx, other.miny), other.maxx, other.maxy)
    }
}

impl WorldBox {
    /// An inverted, empty box that expands to fit the first point added.
    pub fn empty() -> (res: Self)
        ensures
            res == (WorldBox { minx: i64::MAX, miny: i64::MAX, maxx: i64::MIN, maxy: i64::MIN }),
            box_is_empty(res),
    {
        WorldBox { minx: i64::MAX, miny: i64::MAX, maxx: i64::MIN, maxy: i64::MIN }
    }

    pub fn is_empty(&self) -> (res: bool)
        ensures
            res == box_is_empty(*self),
    {
        self.minx > self.maxx || self.miny > self.maxy
    }

    pub fn expand_point(&mut self, x: i64, y: i64)
        ensures
            *final(self) == expanded(*old(self), x, y),
    {
        if x < self.minx {
            self.minx = x;
        }
        if y < self.miny {
            self.miny = y;
        }
        if x > self.maxx {
            self.maxx = x;
        }
        if y > self.maxy {
            self.maxy = y;
        }
    }

    pub fn union(&mut self, other: &WorldBox)
        ensures
            *final(self) == united(*old(self), *other),
    {
        if other.is_empty() {
            return;
        }
        self.expand_point(other.minx, other.miny);
        self.expand_point(other.maxx, other.maxy);
    }

    /// True if this box intersects `other` (touching edges count).
    pub fn intersects(&self, other: &WorldBox) -> (res: bool)
        ensures
            res == boxes_intersect(*self, *other),
    {
        self.minx <= other.maxx && self.maxx >= other.minx && self.miny <= other.maxy && self.maxy
            >= other.miny
    }
}

/// Expanding by a point makes the box hold that point and keeps every point
/// it held; starting from the empty box it gives exactly that point.
pub proof fn lemma_expand_holds_point(b: WorldBox, x: i64, y: i64, px: int, py: int)
    ensures
        box_contains(expanded(b, x, y), x as int, y as int),
        box_contains(b, px, py) ==> box_contains(expanded(b, x, y), px, py),
        b == (WorldBox { minx: i64::MAX, miny: i64::MAX, maxx: i64::MIN, maxy: i64::MIN })
            ==> expanded(b, x, y) == (WorldBox { minx: x, miny: y, maxx: x, maxy: y }),
{
}

/// The union holds every point of both boxes.
pub proof fn lemma_union_holds_both(a: WorldBox, b: WorldBox, px: int, py: int)
    ensures
        box_contains(a, px, py) ==> box_contains(united(a, b), px, py),
        box_contains(b, px, py) ==> box_contains(united(a, b), px, py),
{
}

/// Intersection is symmetric, and two non-empty boxes intersect exactly when
/// they share a point.
pub proof fn lemma_intersects_iff_common_point(a: WorldBox, b: WorldBox)
    ensures
        boxes_intersect(a, b) == boxes_intersect(b, a),
        !box_is_empty(a) && !box_is_empty(b) ==> (boxes_intersect(a, b) <==> exists|x: int, y: int|
            box_contains(a, x, y) && box_contains(b, x, y)),
{
    if !box_is_empty(a) && !box_is_empty(b) && boxes_intersect(a, b) {
        let x = if a.minx > b.minx { a.minx as int } else { b.minx as int };
        let y = if a.miny > b.miny { a.miny as int } else { b.miny as int };
        assert(box_contains(a, x, y) && box_contains(b, x, y));
    }
}

/// The GDSII element kind a placed record came from.
#[derive(Debug, Clone, Copy, PartialEq, Eq, Structural)]
pub enum RecordKind {
    Boundary,
    Path,
    Box,
    Node,
    Text,
}

/// The bounding box of a ring of points (empty for no points).
pub open spec fn ring_box(ring: Seq<[i64; 2]>) -> WorldBox
    decreases ring.len(),
{
    if ring.len() == 0 {
        WorldBox { minx: i64::MAX, miny: i64::MAX, maxx: i64::MIN, maxy: i64::MIN }
    } else {
        expanded(ring_box(ring.drop_last()), ring.last()[0], ring.last()[1])
    }
}

/// The bounding box of a ring of points.
pub fn ring_bbox(ring: &[[i64; 2]]) -> (res: WorldBox)
    ensures
        res == ring_box(ring@),
{
    let mut b = WorldBox::empty();
    let mut i: usize = 0;
    while i < ring.len()
        invariant
            i <= ring.len(),
            b == ring_box(ring@.take(i as int)),
        decreases ring.len() - i,
    {
        assert(ring@.take(i + 1).drop_last() == ring@.take(i as int));
        let p = ring[i];
        b.expand_point(p[0], p[1]);
        i += 1;
    }
    assert(ring@.take(ring.len() as int) == ring@);
    b
}

/// The bounding box of a ring holds every point of the ring.
pub proof fn lemma_ring_box_holds_points(ring: Seq<[i64; 2]>, k: int)
    requires
        0 <= k < ring.len(),
    ensures
        box_contains(ring_box(ring), ring[k][0] as int, ring[k][1] as int),
    decreases ring.len(),
{
    let last = ring.len() - 1;
    if k < last {
        lemma_ring_box_holds_points(ring.drop_last(), k);
        lemma_expand_holds_point(ring_box(ring.drop_last()), ring.last()[0], ring.last()[1], ring[k][0] as int, ring[k][1] as int);
    } else {
        lemma_expand_holds_point(ring_box(ring.drop_last()), ring.last()[0], ring.last()[1], 0, 0);
    }
}

/// The first 16-bit integer of a payload, or 0.
pub fn first_i16(d: &RecordData) -> (res: i16)
    ensures
        res == (if i16_values(d@).len() > 0 { i16_values(d@)[0] } else { 0 }),
{
    let v = get_i16(d);
    if v.len() > 0 {
        v[0]
    } else {
        0
    }
}

/// The first 32-bit integer of a payload, or 0.
pub fn first_i32(d: &RecordData) -> (res: i32)
    ensures
        res == (if i32_values(d@).len() > 0 { i32_values(d@)[0] } else { 0 }),
{
    let v = get_i32(d);
    if v.len() > 0 {
        v[0]
    } else {
        0
    }
}

// ───────────────────────────── cell model ─────────────────────────────

/// Record type of a NODE element.
pub const NODE: u8 = 0x15;
/// Record type of a BOX element.
pub const BOX: u8 = 0x2D;

/// An element of a cell as the tile renderer keeps it: datatypes, boxes,
/// nodes and texts included. Magnification and angle are raw excess-64
/// reals.
#[derive(Debug)]
pub enum CellElem {
    Boundary { layer: i16, datatype: i16, xy: Vec<(i32, i32)> },
    Path { layer: i16, datatype: i16, width: i32, pathtype: u8, xy: Vec<(i32, i32)> },
    Box { layer: i16, datatype: i16, xy: Vec<(i32, i32)> },
    Node { layer: i16, datatype: i16, xy: Vec<(i32, i32)> },
    Text { layer: i16, datatype: i16, xy: (i32, i32), text: String, strans: u16, mag: u64, angle: u64 },
    SRef { sname: String, xy: (i32, i32), strans: u16, mag: u64, angle: u64 },
    ARef { sname: String, xy: Vec<(i32, i32)>, cols: i16, rows: i16, strans: u16, mag: u64, angle: u64 },
}

/// A cell (structure) of the tile renderer.
#[derive(Debug)]
pub struct Cell {
    pub name: String,
    pub elems: Vec<CellElem>,
}

/// The mathematical content of a [`CellElem`].
pub enum CellElemView {
    Boundary { layer: i16, datatype: i16, xy: Seq<(i32, i32)> },
    Path { layer: i16, datatype: i16, width: i32, pathtype: u8, xy: Seq<(i32, i32)> },
    Box { layer: i16, datatype: i16, xy: Seq<(i32, i32)> },
    Node { layer: i16, datatype: i16, xy: Seq<(i32, i32)> },
    Text { layer: i16, datatype: i16, xy: (i32, i32), text: Seq<char>, strans: u16, mag: u64, angle: u64 },
    SRef { sname: Seq<char>, xy: (i32, i32), strans: u16, mag: u64, angle: u64 },
    ARef { sname: Seq<char>, xy: Seq<(i32, i32)>, cols: i16, rows: i16, strans: u16, mag: u64, angle: u64 },
}

/// The mathematical content of a [`Cell`].
pub struct CellView {
    pub name: Seq<char>,
    pub elems: Seq<CellElemView>,
}

impl View for CellElem {
    type V = CellElemView;

    open spec fn view(&self) -> CellElemView {
        match self {
            CellElem::Boundary { layer, datatype, xy } => CellElemView::Boundary { layer: *layer, datatype: *datatype, xy: xy@ },
            CellElem::Path { layer, datatype, width, pathtype, xy } => CellElemView::Path {
                layer: *layer, datatype: *datatype, width: *width, pathtype: *pathtype, xy: xy@,
            },
            CellElem::Box { layer, datatype, xy } => CellElemView::Box { layer: *layer, datatype: *datatype, xy: xy@ },
            CellElem::Node { layer, datatype, xy } => CellElemView::Node { layer: *layer, datatype: *datatype, xy: xy@ },
            CellElem::Text { layer, datatype, xy, text, strans, mag, angle } => CellElemView::Text {
                layer: *layer, datatype: *datatype, xy: *xy, text: text@, strans: *strans, mag: *mag, angle: *angle,
            },
            CellElem::SRef { sname, xy, strans, mag, angle } => CellElemView::SRef {
                sname: sname@, xy: *xy, strans: *strans, mag: *mag, angle: *angle,
            },
            CellElem::ARef { sname, xy, cols, rows, strans, mag, angle } => CellElemView::ARef {
                sname: sname@, xy: xy@, cols: *cols, rows: *rows, strans: *strans, mag: *mag, angle: *angle,
            },
        }
    }
}

/// The views of cell elements.
pub open spec fn cell_elems_view(s: Seq<CellElem>) -> Seq<CellElemView> {
    Seq::new(s.len(), |i: int| s[i]@)
}

impl View for Cell {
    type V = CellView;

    open spec fn view(&self) -> CellView {
        CellView { name: self.name@, elems: cell_elems_view(self.elems@) }
    }
}

/// The views of cells.
pub open spec fn cells_view(s: Seq<Cell>) -> Seq<CellView> {
    Seq::new(s.len(), |i: int| s[i]@)
}

/// The fields an element's records set, while they are read.
pub struct CellFields {
    pub layer: i16,
    pub datatype: i16,
    pub width: i32,
    pub pathtype: u8,
    pub xy: Seq<(i32, i32)>,
    pub point: (i32, i32),
    pub text: Seq<char>,
    pub sname: Seq<char>,
    pub strans: u16,
    pub mag: u64,
    pub angle: u64,
    pub cols: i16,
    pub rows: i16,
}

/// The fields before any record is read: magnification 1, one column and
/// one row, everything else zero or empty.
pub open spec fn initial_cell_fields() -> CellFields {
    CellFields {
        layer: 0,
        datatype: 0,
        width: 0,
        pathtype: 0,
        xy: seq![],
        point: (0, 0),
        text: seq![],
        sname: seq![],
        strans: 0,
        mag: MAG_ONE,
        angle: 0,
        cols: 1,
        rows: 1,
    }
}

/// The first 16-bit integer of a payload, or 0.
pub open spec fn first_i16_of(d: super::reader::PayloadView) -> i16 {
    if i16_values(d).len() > 0 { i16_values(d)[0] } else { 0 }
}

/// The first raw real of a payload, or `default`.
pub open spec fn first_real8_of(d: super::reader::PayloadView, default: u64) -> u64 {
    if real8_values(d).len() > 0 { real8_values(d)[0] } else { default }
}

/// Whether an element kind is a plain geometry (boundary, path, box, node).
pub open spec fn is_geometry_kind(kind: u8) -> bool {
    kind == BOUNDARY || kind == PATH || kind == BOX || kind == NODE
}

/// What one record inside an element of kind `kind` sets. Geometry kinds
/// read the layer, datatype, width, path type (its low byte) and points; a
/// text reads its layer, text type (as the datatype), transform, first
/// point and string; references read their cell name, transform (the
/// transform flags only from 16-bit integer payloads), first point (SREF),
/// or points and grid (AREF). Values missing from a payload give 0, or the
/// defaults for magnification and angle; a missing first point or grid
/// leaves the field as it was.
pub open spec fn apply_cell_record(kind: u8, st: CellFields, r: RecordView) -> CellFields {
    let t = r.record_type;
    let d = r.data;
    let pairs = xy_pairs(i32_values(d));
    if is_geometry_kind(kind) {
        if t == LAYER {
            CellFields { layer: first_i16_of(d), ..st }
        } else if t == DATATYPE {
            CellFields { datatype: first_i16_of(d), ..st }
        } else if t == WIDTH {
            CellFields { width: if i32_values(d).len() > 0 { i32_values(d)[0] } else { 0 }, ..st }
        } else if t == PATHTYPE {
            CellFields { pathtype: first_i16_of(d) as u8, ..st }
        } else if t == XY {
            CellFields { xy: pairs, ..st }
        } else {
            st
        }
    } else if kind == TEXT {
        if t == LAYER {
            CellFields { layer: first_i16_of(d), ..st }
        } else if t == TEXTTYPE {
            CellFields { datatype: first_i16_of(d), ..st }
        } else if t == STRANS {
            CellFields { strans: first_i16_of(d) as u16, ..st }
        } else if t == MAG {
            CellFields { mag: first_real8_of(d, MAG_ONE), ..st }
        } else if t == ANGLE {
            CellFields { angle: first_real8_of(d, 0), ..st }
        } else if t == XY {
            if pairs.len() > 0 { CellFields { point: pairs[0], ..st } } else { st }
        } else if t == STRING {
            CellFields { text: ascii_value(d), ..st }
        } else {
            st
        }
    } else {
        if t == SNAME {
            CellFields { sname: ascii_value(d), ..st }
        } else if t == STRANS {
            CellFields { strans: first_i16_of(d) as u16, ..st }
        } else if t == MAG {
            CellFields { mag: first_real8_of(d, MAG_ONE), ..st }
        } else if t == ANGLE {
            CellFields { angle: first_real8_of(d, 0), ..st }
        } else if t == COLROW && kind == AREF {
            if i16_values(d).len() >= 2 { CellFields { cols: i16_values(d)[0], rows: i16_values(d)[1], ..st } } else { st }
        } else if t == XY && kind == AREF {
            CellFields { xy: pairs, ..st }
        } else if t == XY && kind == SREF {
            if pairs.len() > 0 { CellFields { point: pairs[0], ..st } } else { st }
        } else {
            st
        }
    }
}

/// Reads an element's records from index `i` up to its ENDEL: the fields
/// they set and the index after the ENDEL (or the end).
pub open spec fn scan_cell_element(kind: u8, recs: Seq<RecordView>, i: nat, st: CellFields) -> (CellFields, nat)
    decreases recs.len() - i,
{
    if i >= recs.len() {
        (st, i)
    } else if recs[i as int].record_type == ENDEL {
        (st, i + 1)
    } else {
        scan_cell_element(kind, recs, i + 1, apply_cell_record(kind, st, recs[i as int]))
    }
}

pub proof fn lemma_scan_cell_advances(kind: u8, recs: Seq<RecordView>, i: nat, st: CellFields)
    ensures
        scan_cell_element(kind, recs, i, st).1 >= i,
        i <= recs.len() ==> scan_cell_element(kind, recs, i, st).1 <= recs.len(),
    decreases recs.len() - i,
{
    if i < recs.len() && recs[i as int].record_type != ENDEL {
        lemma_scan_cell_advances(kind, recs, i + 1, apply_cell_record(kind, st, recs[i as int]));
    }
}

/// The element of kind `kind` its fields describe.
pub open spec fn cell_elem_of(kind: u8, f: CellFields) -> CellElemView {
    if kind == BOUNDARY {
        CellElemView::Boundary { layer: f.layer, datatype: f.datatype, xy: f.xy }
    } else if kind == PATH {
        CellElemView::Path { layer: f.layer, datatype: f.datatype, width: f.width, pathtype: f.pathtype, xy: f.xy }
    } else if kind == BOX {
        CellElemView::Box { layer: f.layer, datatype: f.datatype, xy: f.xy }
    } else if kind == NODE {
        CellElemView::Node { layer: f.layer, datatype: f.datatype, xy: f.xy }
    } else if kind == TEXT {
        CellElemView::Text {
            layer: f.layer, datatype: f.datatype, xy: f.point, text: f.text, strans: f.strans, mag: f.mag, angle: f.angle,
        }
    } else if kind == SREF {
        CellElemView::SRef { sname: f.sname, xy: f.point, strans: f.strans, mag: f.mag, angle: f.angle }
    } else {
        CellElemView::ARef {
            sname: f.sname, xy: f.xy, cols: f.cols, rows: f.rows, strans: f.strans, mag: f.mag, angle: f.angle,
        }
    }
}

/// Whether a record type opens a cell element.
pub open spec fn opens_cell_element(t: u8) -> bool {
    is_geometry_kind(t) || t == TEXT || t == SREF || t == AREF
}

/// The elements of a cell from index `i` up to its ENDSTR, and the index of
/// that ENDSTR (or the end). Other records are skipped one by one.
pub open spec fn cell_elems_from(recs: Seq<RecordView>, i: nat) -> (Seq<CellElemView>, nat)
    decreases recs.len() - i,
{
    if i >= recs.len() || recs[i as int].record_type == ENDSTR {
        (seq![], i)
    } else if opens_cell_element(recs[i as int].record_type) {
        let kind = recs[i as int].record_type;
        let sc = scan_cell_element(kind, recs, i + 1, initial_cell_fields());
        proof {
            lemma_scan_cell_advances(kind, recs, i + 1, initial_cell_fields());
        }
        let rest = cell_elems_from(recs, sc.1);
        (seq![cell_elem_of(kind, sc.0)] + rest.0, rest.1)
    } else {
        cell_elems_from(recs, i + 1)
    }
}

pub proof fn lemma_cell_elems_advance(recs: Seq<RecordView>, i: nat)
    ensures
        cell_elems_from(recs, i).1 >= i,
        i <= recs.len() ==> cell_elems_from(recs, i).1 <= recs.len(),
    decreases recs.len() - i,
{
    if i >= recs.len() || recs[i as int].record_type == ENDSTR {
    } else if opens_cell_element(recs[i as int].record_type) {
        let kind = recs[i as int].record_type;
        lemma_scan_cell_advances(kind, recs, i + 1, initial_cell_fields());
        lemma_cell_elems_advance(recs, scan_cell_element(kind, recs, i + 1, initial_cell_fields()).1);
    } else {
        lemma_cell_elems_advance(recs, i + 1);
    }
}

/// The cells from index `i` on: a BGNSTR followed by its STRNAME opens a
/// cell whose elements run to its ENDSTR; a BGNSTR without a name, and any
/// record outside a cell, is skipped.
pub open spec fn cells_from(recs: Seq<RecordView>, i: nat) -> Seq<CellView>
    decreases recs.len() - i,
{
    if i >= recs.len() {
        seq![]
    } else if recs[i as int].record_type != BGNSTR {
        cells_from(recs, i + 1)
    } else if i + 1 >= recs.len() || recs[i + 1int].record_type != STRNAME {
        cells_from(recs, i + 1)
    } else {
        let name = ascii_value(recs[i + 1int].data);
        let es = cell_elems_from(recs, i + 2);
        proof {
            lemma_cell_elems_advance(recs, i + 2);
        }
        let after = if es.1 < recs.len() { es.1 + 1 } else { es.1 };
        seq![CellView { name, elems: es.0 }] + cells_from(recs, after)
    }
}

// ───────────────────────────── reading cells ─────────────────────────────

/// The fields of an element while its records are read.
struct Fields {
    layer: i16,
    datatype: i16,
    width: i32,
    pathtype: u8,
    xy: Vec<(i32, i32)>,
    point: (i32, i32),
    text: String,
    sname: String,
    strans: u16,
    mag: u64,
    angle: u64,
    cols: i16,
    rows: i16,
}

impl View for Fields {
    type V = CellFields;

    closed spec fn view(&self) -> CellFields {
        CellFields {
            layer: self.layer,
            datatype: self.datatype,
            width: self.width,
            pathtype: self.pathtype,
            xy: self.xy@,
            point: self.point,
            text: self.text@,
            sname: self.sname@,
            strans: self.strans,
            mag: self.mag,
            angle: self.angle,
            cols: self.cols,
            rows: self.rows,
        }
    }
}

/// The first raw real of a payload, or `default`.
fn first_real8(d: &RecordData, default: u64) -> (res: u64)
    ensures
        res == first_real8_of(d@, default),
{
    let v = get_real8(d);
    if v.len() > 0 {
        v[0]
    } else {
        default
    }
}

/// Applies one record of an element of kind `kind`.
fn apply_cell_record_exec(kind: u8, f: &mut Fields, r: &Record)
    ensures
        final(f)@ == apply_cell_record(kind, old(f)@, r@),
{
    let t = r.record_type;
    let d = &r.data;
    if kind == BOUNDARY || kind == PATH || kind == BOX || kind == NODE {
        if t == LAYER {
            f.layer = first_i16(d);
        } else if t == DATATYPE {
            f.datatype = first_i16(d);
        } else if t == WIDTH {
            f.width = first_i32(d);
        } else if t == PATHTYPE {
            f.pathtype = first_i16(d) as u8;
        } else if t == XY {
            f.xy = get_xy_pairs(d);
        }
    } else if kind == TEXT {
        if t == LAYER {
            f.layer = first_i16(d);
        } else if t == TEXTTYPE {
            f.datatype = first_i16(d);
        } else if t == STRANS {
            f.strans = first_i16(d) as u16;
        } else if t == MAG {
            f.mag = first_real8(d, MAG_ONE);
        } else if t == ANGLE {
            f.angle = first_real8(d, 0);
        } else if t == XY {
            let pairs = get_xy_pairs(d);
            if pairs.len() > 0 {
                f.point = pairs[0];
            }
        } else if t == STRING {
            f.text = get_ascii(d);
        }
    } else {
        if t == SNAME {
            f.sname = get_ascii(d);
        } else if t == STRANS {
            f.strans = first_i16(d) as u16;
        } else if t == MAG {
            f.mag = first_real8(d, MAG_ONE);
        } else if t == ANGLE {
            f.angle = first_real8(d, 0);
        } else if t == COLROW && kind == AREF {
            let v = get_i16(d);
            if v.len() >= 2 {
                f.cols = v[0];
                f.rows = v[1];
            }
        } else if t == XY && kind == AREF {
            f.xy = get_xy_pairs(d);
        } else if t == XY && kind == SREF {
            let pairs = get_xy_pairs(d);
            if pairs.len() > 0 {
                f.point = pairs[0];
            }
        }
    }
}

/// Parses the element of kind `kind` opened by the record at `start` (a
/// boundary, path, box, node, text or reference): its fields up to its
/// ENDEL, and the index after it.
pub fn parse_element(records: &[Record], start: usize, kind: u8) -> (res: (CellElem, usize))
    requires
        start < records.len(),
        opens_cell_element(kind),
    ensures
        ({
            let sc = scan_cell_element(kind, records_view(records@), (start + 1) as nat, initial_cell_fields());
            res.0@ == cell_elem_of(kind, sc.0) && res.1 as nat == sc.1
        }),
{
    let ghost recs = records_view(records@);
    let mut f = Fields {
        layer: 0,
        datatype: 0,
        width: 0,
        pathtype: 0,
        xy: Vec::new(),
        point: (0, 0),
        text: String::new(),
        sname: String::new(),
        strans: 0,
        mag: MAG_ONE,
        angle: 0,
        cols: 1,
        rows: 1,
    };
    assert(f@ =~= initial_cell_fields());
    let mut i = start + 1;
    while i < records.len() && records[i].record_type != ENDEL
        invariant
            start < i <= records.len(),
            recs == records_view(records@),
            scan_cell_element(kind, recs, (start + 1) as nat, initial_cell_fields())
                == scan_cell_element(kind, recs, i as nat, f@),
        decreases records.len() - i,
    {
        assert(recs[i as int] == records@[i as int]@);
        apply_cell_record_exec(kind, &mut f, &records[i]);
        i += 1;
    }
    if i < records.len() {
        assert(recs[i as int] == records@[i as int]@);
        i += 1;
    }
    let elem = if kind == BOUNDARY {
        CellElem::Boundary { layer: f.layer, datatype: f.datatype, xy: f.xy }
    } else if kind == PATH {
        CellElem::Path { layer: f.layer, datatype: f.datatype, width: f.width, pathtype: f.pathtype, xy: f.xy }
    } else if kind == BOX {
        CellElem::Box { layer: f.layer, datatype: f.datatype, xy: f.xy }
    } else if kind == NODE {
        CellElem::Node { layer: f.layer, datatype: f.datatype, xy: f.xy }
    } else if kind == TEXT {
        CellElem::Text {
            layer: f.layer, datatype: f.datatype, xy: f.point, text: f.text, strans: f.strans, mag: f.mag, angle: f.angle,
        }
    } else if kind == SREF {
        CellElem::SRef { sname: f.sname, xy: f.point, strans: f.strans, mag: f.mag, angle: f.angle }
    } else {
        CellElem::ARef { sname: f.sname, xy: f.xy, cols: f.cols, rows: f.rows, strans: f.strans, mag: f.mag, angle: f.angle }
    };
    (elem, i)
}

/// Reads the cells of a record stream (see [`cells_from`]).
pub fn parse_cells(records: &[Record]) -> (res: Vec<Cell>)
    ensures
        cells_view(res@) == cells_from(records_view(records@), 0),
{
    let ghost recs = records_view(records@);
    let mut cells: Vec<Cell> = Vec::new();
    let ghost mut done: Seq<CellView> = seq![];
    let mut i: usize = 0;
    assert(done + cells_from(recs, 0) =~= cells_from(recs, 0));
    while i < records.len()
        invariant
            i <= records.len(),
            recs == records_view(records@),
            cells_from(recs, 0) == done + cells_from(recs, i as nat),
            cells_view(cells@) == done,
        decreases records.len() - i,
    {
        assert(recs[i as int] == records@[i as int]@);
        if records[i].record_type != BGNSTR {
            i += 1;
            continue;
        }
        i += 1;
        if i >= records.len() || records[i].record_type != STRNAME {
            proof {
                if i < records.len() {
                    assert(recs[i as int] == records@[i as int]@);
                }
            }
            continue;
        }
        assert(recs[i as int] == records@[i as int]@);
        let name = get_ascii(&records[i].data);
        i += 1;
        let mut elems: Vec<CellElem> = Vec::new();
        let ghost start = i as nat;
        let ghost mut got: Seq<CellElemView> = seq![];
        assert(got + cell_elems_from(recs, start).0 =~= cell_elems_from(recs, start).0);
        while i < records.len() && records[i].record_type != ENDSTR
            invariant
                start <= i <= records.len(),
                recs == records_view(records@),
                cell_elems_from(recs, start).0 == got + cell_elems_from(recs, i as nat).0,
                cell_elems_from(recs, start).1 == cell_elems_from(recs, i as nat).1,
                cell_elems_view(elems@) == got,
            decreases records.len() - i,
        {
            assert(recs[i as int] == records@[i as int]@);
            let t = records[i].record_type;
            if t == BOUNDARY || t == PATH || t == BOX || t == NODE || t == TEXT || t == SREF || t == AREF {
                let (e, next) = parse_element(records, i, t);
                proof {
                    lemma_scan_cell_advances(t, recs, (i + 1) as nat, initial_cell_fields());
                    let ev = e@;
                    assert(got.push(ev) + cell_elems_from(recs, next as nat).0 =~= got + (seq![ev] + cell_elems_from(recs, next as nat).0));
                    got = got.push(ev);
                }
                let ghost before = elems@;
                elems.push(e);
                assert(cell_elems_view(elems@) =~= cell_elems_view(before).push(e@));
                i = next;
            } else {
                i += 1;
            }
        }
        proof {
            if i < records.len() {
                assert(recs[i as int] == records@[i as int]@);
            }
            assert(cell_elems_from(recs, i as nat).0 =~= seq![]);
            assert(got + seq![] =~= got);
        }
        if i < records.len() {
            i += 1;
        }
        let ghost cv = CellView { name: name@, elems: got };
        let ghost before_cells = cells@;
        cells.push(Cell { name, elems });
        proof {
            assert(cells_view(cells@) =~= cells_view(before_cells).push(cv));
            assert(done.push(cv) + cells_from(recs, i as nat) =~= done + (seq![cv] + cells_from(recs, i as nat)));
            done = done.push(cv);
        }
    }
    assert(cells_from(recs, i as nat) =~= seq![]);
    assert(done + seq![] =~= done);
    cells
}

// ───────────────────────────── top cell ─────────────────────────────

/// Whether an element places the cell named `name`.
pub open spec fn elem_places(e: CellElemView, name: Seq<char>) -> bool {
    match e {
        CellElemView::SRef { sname, .. } => sname == name,
        CellElemView::ARef { sname, .. } => sname == name,
        _ => false,
    }
}

/// Whether an element among the first `n` places `name`.
pub open spec fn placed_among(es: Seq<CellElemView>, n: int, name: Seq<char>) -> bool {
    exists|b: int| 0 <= b < n && elem_places(#[trigger] es[b], name)
}

/// Whether an element of one of the first `n` cells places `name`.
pub open spec fn placed_by_cells(cs: Seq<CellView>, n: int, name: Seq<char>) -> bool {
    exists|a: int| 0 <= a < n && placed_among(#[trigger] cs[a].elems, cs[a].elems.len() as int, name)
}

/// Whether cell `k` is marked as placed: a reference names it, and no later
/// cell has its name (a name stands for the last cell that has it).
pub open spec fn marked_placed(cs: Seq<CellView>, k: int) -> bool {
    placed_by_cells(cs, cs.len() as int, cs[k].name) && forall|m: int| k < m < cs.len() ==> #[trigger] cs[m].name != cs[k].name
}

/// The top cell: the first one not marked as placed, else the last cell;
/// none without cells.
pub open spec fn top_cell_spec(cs: Seq<CellView>) -> Option<int> {
    if cs.len() == 0 {
        None
    } else if exists|k: int| 0 <= k < cs.len() && !marked_placed(cs, k) {
        Some(choose|k: int| 0 <= k < cs.len() && !marked_placed(cs, k) && forall|m: int| 0 <= m < k ==> marked_placed(cs, m))
    } else {
        Some(cs.len() - 1)
    }
}

/// The cell names that the references of the cells place.
fn placed_names(cells: &[Cell]) -> (res: Vec<String>)
    ensures
        forall|name: Seq<char>| #[trigger] has_name(res@, name) <==> placed_by_cells(cells_view(cells@), cells@.len() as int, name),
{
    let ghost cs = cells_view(cells@);
    let mut names: Vec<String> = Vec::new();
    let mut i: usize = 0;
    while i < cells.len()
        invariant
            i <= cells.len(),
            cs == cells_view(cells@),
            forall|name: Seq<char>| #[trigger] has_name(names@, name) <==> placed_by_cells(cs, i as int, name),
        decreases cells.len() - i,
    {
        let elems = &cells[i].elems;
        let ghost es = cs[i as int].elems;
        assert(es == cell_elems_view(elems@));
        let mut j: usize = 0;
        while j < elems.len()
            invariant
                i < cells.len(),
                j <= elems.len(),
                cs == cells_view(cells@),
                es == cs[i as int].elems,
                es == cell_elems_view(elems@),
                forall|name: Seq<char>| #[trigger] has_name(names@, name) <==> (placed_by_cells(cs, i as int, name)
                    || placed_among(es, j as int, name)),
            decreases elems.len() - j,
        {
            let ghost old_names = names@;
            proof {
                assert forall|name: Seq<char>| #[trigger] placed_among(es, j + 1, name) <==> (placed_among(es, j as int, name)
                    || elem_places(es[j as int], name)) by {
                    if elem_places(es[j as int], name) {
                        assert(0 <= j < j + 1);
                    }
                    if placed_among(es, j + 1, name) {
                        let b = choose|b: int| 0 <= b < j + 1 && elem_places(#[trigger] es[b], name);
                        if b < j {
                            assert(placed_among(es, j as int, name));
                        }
                    }
                }
            }
            match &elems[j] {
                CellElem::SRef { sname, .. } | CellElem::ARef { sname, .. } => {
                    names.push(crate::text::to_string(sname.as_str()));
                    proof {
                        assert forall|name: Seq<char>| #[trigger] has_name(names@, name) <==> (has_name(old_names, name)
                            || name == sname@) by {
                            if name == sname@ {
                                assert(names@[old_names.len() as int]@ == name);
                            }
                            if has_name(old_names, name) {
                                let k = choose|k: int| 0 <= k < old_names.len() && #[trigger] old_names[k]@ == name;
                                assert(names@[k] == old_names[k]);
                            }
                            if has_name(names@, name) {
                                let k = choose|k: int| 0 <= k < names@.len() && #[trigger] names@[k]@ == name;
                                if k < old_names.len() {
                                    assert(old_names[k] == names@[k]);
                                }
                            }
                        }
                    }
                },
                _ => {},
            }
            j += 1;
        }
        proof {
            assert forall|name: Seq<char>| #[trigger] placed_by_cells(cs, i + 1, name) <==> (placed_by_cells(cs, i as int, name)
                || placed_among(es, elems.len() as int, name)) by {
                if placed_among(es, elems.len() as int, name) {
                    assert(placed_among(cs[i as int].elems, cs[i as int].elems.len() as int, name));
                }
                if placed_by_cells(cs, i + 1, name) {
                    let a = choose|a: int| 0 <= a < i + 1 && placed_among(#[trigger] cs[a].elems, cs[a].elems.len() as int, name);
                    if a < i {
                        assert(placed_by_cells(cs, i as int, name));
                    }
                }
            }
        }
        i += 1;
    }
    names
}

/// Whether no cell after `k` has cell `k`'s name.
fn last_with_name(cells: &[Cell], k: usize) -> (res: bool)
    requires
        k < cells.len(),
    ensures
        res == forall|m: int| k < m < cells@.len() ==> #[trigger] cells_view(cells@)[m].name != cells_view(cells@)[k as int].name,
{
    let ghost cs = cells_view(cells@);
    let target = crate::text::chars_of(cells[k].name.as_str());
    let mut m = k + 1;
    while m < cells.len()
        invariant
            k < m <= cells.len(),
            cs == cells_view(cells@),
            target@ == cs[k as int].name,
            forall|q: int| k < q < m ==> #[trigger] cs[q].name != cs[k as int].name,
        decreases cells.len() - m,
    {
        let cs_m = crate::text::chars_of(cells[m].name.as_str());
        if crate::text::eq_chars(&cs_m, &target) {
            assert(cs[m as int].name == cs[k as int].name);
            return false;
        }
        m += 1;
    }
    true
}

/// Chooses the top cell: the first cell no reference places, else the
/// last; none without cells.
pub fn top_cell(cells: &[Cell]) -> (res: Option<usize>)
    ensures
        match res {
            Some(i) => top_cell_spec(cells_view(cells@)) == Some(i as int),
            None => top_cell_spec(cells_view(cells@)) is None,
        },
{
    let ghost cs = cells_view(cells@);
    if cells.len() == 0 {
        return None;
    }
    let names = placed_names(cells);
    let mut k: usize = 0;
    while k < cells.len()
        invariant
            k <= cells.len(),
            cs == cells_view(cells@),
            forall|name: Seq<char>| #[trigger] has_name(names@, name) <==> placed_by_cells(cs, cs.len() as int, name),
            forall|m: int| 0 <= m < k ==> marked_placed(cs, m),
        decreases cells.len() - k,
    {
        assert(cs[k as int].name == cells@[k as int].name@);
        let marked = contains_name(&names, cells[k].name.as_str()) && last_with_name(cells, k);
        if !marked {
            proof {
                assert(!marked_placed(cs, k as int));
                let w = choose|w: int| 0 <= w < cs.len() && !marked_placed(cs, w) && forall|m: int| 0 <= m < w ==> marked_placed(cs, m);
                if w < k {
                    assert(marked_placed(cs, w));
                } else if w > k {
                    assert(marked_placed(cs, k as int));
                }
            }
            return Some(k);
        }
        k += 1;
    }
    Some(cells.len() - 1)
}

// ───────────────────────────── streaming ─────────────────────────────

/// Whether a raw excess-64 real is positive: sign bit clear and a non-zero
/// mantissa.
pub open spec fn real8_positive(w: u64) -> bool {
    w < 0x8000_0000_0000_0000 && w % 0x0100_0000_0000_0000 != 0
}

/// The meters per database unit of the first UNITS record (from index `i`
/// on) whose second value is positive, as a raw real.
pub open spec fn dbu_word_from(recs: Seq<RecordView>, i: nat) -> Option<u64>
    decreases recs.len() - i,
{
    if i >= recs.len() {
        None
    } else if recs[i as int].record_type == UNITS && real8_values(recs[i as int].data).len() >= 2
        && real8_positive(real8_values(recs[i as int].data)[1]) {
        Some(real8_values(recs[i as int].data)[1])
    } else {
        dbu_word_from(recs, i + 1)
    }
}

/// The raw meters per database unit of a record stream (see
/// [`dbu_word_from`]).
fn meters_per_dbu_word(records: &[Record]) -> (res: Option<u64>)
    ensures
        res == dbu_word_from(records_view(records@), 0),
{
    let ghost recs = records_view(records@);
    let mut i: usize = 0;
    while i < records.len()
        invariant
            i <= records.len(),
            recs == records_view(records@),
            dbu_word_from(recs, 0) == dbu_word_from(recs, i as nat),
        decreases records.len() - i,
    {
        assert(recs[i as int] == records@[i as int]@);
        if records[i].record_type == UNITS {
            let vals = get_real8(&records[i].data);
            if vals.len() >= 2 && vals[1] < 0x8000_0000_0000_0000 && vals[1] % 0x0100_0000_0000_0000 != 0 {
                return Some(vals[1]);
            }
        }
        i += 1;
    }
    None
}

/// A GDSII stream's cells as the tile renderer reads them, before any
/// geometry is placed.
#[derive(Debug)]
pub struct CellTree {
    pub cells: Vec<Cell>,
    /// Index of the top cell, none without cells.
    pub top: Option<usize>,
    /// Raw meters per database unit, when a UNITS record gives a positive one.
    pub meters_per_dbu: Option<u64>,
}

/// Reads the cell tree of a GDSII stream: its records (strictly), its
/// cells, its top cell and its database unit.
pub fn stream_cells(data: &[u8]) -> (res: Result<CellTree, ExtractError>)
    ensures
        match records_spec(data@, true) {
            Err(m) => res matches Err(ExtractError::ParseError(e)) && e@ == m,
            Ok(recs) => res matches Ok(t) && cells_view(t.cells@) == cells_from(recs, 0)
                && t.meters_per_dbu == dbu_word_from(recs, 0)
                && match t.top {
                    Some(k) => top_cell_spec(cells_view(t.cells@)) == Some(k as int),
                    None => top_cell_spec(cells_view(t.cells@)) is None,
                },
        },
{
    let records = match parse_records(data) {
        Ok(r) => r,
        Err(e) => return Err(e),
    };
    let meters_per_dbu = meters_per_dbu_word(&records);
    let cells = parse_cells(&records);
    let top = top_cell(&cells);
    Ok(CellTree { cells, top, meters_per_dbu })
}

} // verus!
