//! GDSII stream files: record reading, the cell structure of a library,
//! layer naming, integer extents and the spatial index of the tile pipeline.
pub mod reader;
pub mod tile;
pub mod bsp;
pub mod tiler;
pub mod tileset;

use vstd::prelude::*;

use crate::error::ExtractError;
use crate::text::{decimal, push_chars, signed_decimal, signed_decimal_chars, to_string};
use reader::{
    ascii_value, bitarray_values, get_ascii, get_bitarray, get_i16, get_i32, get_real8,
    get_xy_pairs, i16_values, i32_values, real8_values, records_view, xy_pairs, Record,
    PayloadView, RecordView, ANGLE, AREF, BGNSTR, BOUNDARY, COLROW, ENDEL, ENDSTR, LAYER, MAG, PATH, SNAME,
    SREF, STRANS, STRING, STRNAME, TEXT, WIDTH, XY,
};

verus! {

pub const LIBNAME: u8 = 0x02;

/// The excess-64 encoding of 1.0, the magnification a reference has when it
/// gives none.
pub const MAG_ONE: u64 = 0x4110_0000_0000_0000;

// ───────────────────────────── cell model ─────────────────────────────

/// A GDSII element within a structure. Magnification and angle are raw
/// excess-64 reals.
#[derive(Debug)]
pub enum GdsElement {
    Boundary { layer: i16, xy: Vec<(i32, i32)> },
    Path { layer: i16, width: i32, xy: Vec<(i32, i32)> },
    SRef { sname: String, xy: (i32, i32), strans: u16, mag: u64, angle: u64 },
    ARef {
        sname: String,
        xy: Vec<(i32, i32)>,
        cols: i16,
        rows: i16,
        strans: u16,
        mag: u64,
        angle: u64,
    },
    Text { layer: i16, xy: (i32, i32), text: String },
}

/// A GDSII structure (cell).
#[derive(Debug)]
pub struct GdsStructure {
    pub name: String,
    pub elements: Vec<GdsElement>,
}

/// The fields an element's records set, as they stand while its records are
/// read.
pub struct FieldsView {
    pub layer: i16,
    pub width: i32,
    pub xy: Seq<(i32, i32)>,
    pub point: (i32, i32),
    pub sname: Seq<char>,
    pub strans: u16,
    pub mag: u64,
    pub angle: u64,
    pub cols: i16,
    pub rows: i16,
    pub text: Seq<char>,
}

/// The mathematical content of an element.
pub enum ElementView {
    Boundary { layer: i16, xy: Seq<(i32, i32)> },
    Path { layer: i16, width: i32, xy: Seq<(i32, i32)> },
    SRef { sname: Seq<char>, xy: (i32, i32), strans: u16, mag: u64, angle: u64 },
    ARef {
        sname: Seq<char>,
        xy: Seq<(i32, i32)>,
        cols: i16,
        rows: i16,
        strans: u16,
        mag: u64,
        angle: u64,
    },
    Text { layer: i16, xy: (i32, i32), text: Seq<char> },
}

/// The mathematical content of a structure.
pub struct StructureView {
    pub name: Seq<char>,
    pub elements: Seq<ElementView>,
}

impl View for GdsElement {
    type V = ElementView;

    open spec fn view(&self) -> ElementView {
        match self {
            GdsElement::Boundary { layer, xy } => ElementView::Boundary { layer: *layer, xy: xy@ },
            GdsElement::Path { layer, width, xy } => ElementView::Path {
                layer: *layer,
                width: *width,
                xy: xy@,
            },
            GdsElement::SRef { sname, xy, strans, mag, angle } => ElementView::SRef {
                sname: sname@,
                xy: *xy,
                strans: *strans,
                mag: *mag,
                angle: *angle,
            },
            GdsElement::ARef { sname, xy, cols, rows, strans, mag, angle } => ElementView::ARef {
                sname: sname@,
                xy: xy@,
                cols: *cols,
                rows: *rows,
                strans: *strans,
                mag: *mag,
                angle: *angle,
            },
            GdsElement::Text { layer, xy, text } => ElementView::Text {
                layer: *layer,
                xy: *xy,
                text: text@,
            },
        }
    }
}

impl View for GdsStructure {
    type V = StructureView;

    open spec fn view(&self) -> StructureView {
        StructureView {
            name: self.name@,
            elements: elements_view(self.elements@),
        }
    }
}

/// The views of a sequence of elements.
pub open spec fn elements_view(s: Seq<GdsElement>) -> Seq<ElementView> {
    Seq::new(s.len(), |i: int| s[i]@)
}

/// The views of a sequence of structures.
pub open spec fn structures_view(s: Seq<GdsStructure>) -> Seq<StructureView> {
    Seq::new(s.len(), |i: int| s[i]@)
}

// ───────────────────────────── element records ─────────────────────────────

/// The fields before any record of an element is read.
pub open spec fn initial_fields() -> FieldsView {
    FieldsView {
        layer: 0,
        width: 0,
        xy: Seq::empty(),
        point: (0, 0),
        sname: Seq::empty(),
        strans: 0,
        mag: MAG_ONE,
        angle: 0,
        cols: 1,
        rows: 1,
        text: Seq::empty(),
    }
}

/// What one record inside an element of kind `kind` sets. A later record of
/// the same type overrides an earlier one; a record without values leaves
/// the field as it was; records the kind does not use are skipped.
pub open spec fn apply_record(kind: u8, st: FieldsView, r: RecordView) -> FieldsView {
    let t = r.record_type;
    let i16s = i16_values(r.data);
    let pairs = xy_pairs(i32_values(r.data));
    if t == LAYER && (kind == BOUNDARY || kind == PATH || kind == TEXT) {
        if i16s.len() > 0 {
            FieldsView { layer: i16s[0], ..st }
        } else {
            st
        }
    } else if t == WIDTH && kind == PATH {
        if i32_values(r.data).len() > 0 {
            FieldsView { width: i32_values(r.data)[0], ..st }
        } else {
            st
        }
    } else if t == XY && (kind == BOUNDARY || kind == PATH || kind == AREF) {
        FieldsView { xy: pairs, ..st }
    } else if t == XY && (kind == SREF || kind == TEXT) {
        if pairs.len() > 0 {
            FieldsView { point: pairs[0], ..st }
        } else {
            st
        }
    } else if t == SNAME && (kind == SREF || kind == AREF) {
        FieldsView { sname: ascii_value(r.data), ..st }
    } else if t == STRANS && (kind == SREF || kind == AREF) {
        if bitarray_values(r.data).len() > 0 {
            FieldsView { strans: bitarray_values(r.data)[0], ..st }
        } else {
            st
        }
    } else if t == MAG && (kind == SREF || kind == AREF) {
        if real8_values(r.data).len() > 0 {
            FieldsView { mag: real8_values(r.data)[0], ..st }
        } else {
            st
        }
    } else if t == ANGLE && (kind == SREF || kind == AREF) {
        if real8_values(r.data).len() > 0 {
            FieldsView { angle: real8_values(r.data)[0], ..st }
        } else {
            st
        }
    } else if t == COLROW && kind == AREF {
        if i16s.len() >= 2 {
            FieldsView { cols: i16s[0], rows: i16s[1], ..st }
        } else {
            st
        }
    } else if t == STRING && kind == TEXT {
        FieldsView { text: ascii_value(r.data), ..st }
    } else {
        st
    }
}

/// Reads the records of an element from index `i` up to its ENDEL: the fields
/// they set and the index after the ENDEL (or the end of the records).
pub open spec fn scan_element(kind: u8, recs: Seq<RecordView>, i: nat, st: FieldsView) -> (FieldsView, nat)
    decreases recs.len() - i,
{
    if i >= recs.len() {
        (st, i)
    } else if recs[i as int].record_type == ENDEL {
        (st, i + 1)
    } else {
        scan_element(kind, recs, i + 1, apply_record(kind, st, recs[i as int]))
    }
}

/// An array reference takes its column count from the first 16-bit value of
/// its COLROW record and its row count from the second; nothing else changes.
pub proof fn lemma_colrow_gives_cols_then_rows(st: FieldsView, r: RecordView, v: Seq<i16>)
    requires
        r.record_type == COLROW,
        r.data == PayloadView::Int16(v),
        v.len() >= 2,
    ensures
        apply_record(AREF, st, r).cols == v[0],
        apply_record(AREF, st, r).rows == v[1],
        apply_record(AREF, st, r) == (FieldsView { cols: v[0], rows: v[1], ..st }),
{
}

/// A LAYER record sets the layer of a boundary, path or text to its first
/// value, a WIDTH record a path's width to its first value, an XY record
/// the point list of a boundary, path or array (x then y of each point) and
/// the position of a reference or text (its first point).
pub proof fn lemma_records_set_their_fields(st: FieldsView, r: RecordView, kind: u8, v16: Seq<i16>, v32: Seq<i32>)
    ensures
        r.record_type == LAYER && (kind == BOUNDARY || kind == PATH || kind == TEXT) && r.data == PayloadView::Int16(
            v16,
        ) && v16.len() > 0 ==> apply_record(kind, st, r) == (FieldsView { layer: v16[0], ..st }),
        r.record_type == WIDTH && kind == PATH && r.data == PayloadView::Int32(v32) && v32.len() > 0
            ==> apply_record(kind, st, r) == (FieldsView { width: v32[0], ..st }),
        r.record_type == XY && (kind == BOUNDARY || kind == PATH || kind == AREF) && r.data == PayloadView::Int32(v32)
            ==> apply_record(kind, st, r).xy.len() == v32.len() / 2 && forall|k: int|
            0 <= k < v32.len() / 2 ==> #[trigger] apply_record(kind, st, r).xy[k] == (v32[2 * k], v32[2 * k + 1]),
        r.record_type == XY && (kind == SREF || kind == TEXT) && r.data == PayloadView::Int32(v32) && v32.len() >= 2
            ==> apply_record(kind, st, r).point == (v32[0], v32[1]),
{
}

/// Only a COLROW record changes the column and row counts.
pub proof fn lemma_only_colrow_sets_counts(kind: u8, st: FieldsView, r: RecordView)
    requires
        r.record_type != COLROW,
    ensures
        apply_record(kind, st, r).cols == st.cols,
        apply_record(kind, st, r).rows == st.rows,
{
}

/// An array reference element carries the column and row counts its fields
/// hold.
pub proof fn lemma_aref_element_counts(f: FieldsView)
    ensures
        element_of(AREF, f) matches ElementView::ARef { cols, rows, .. } && cols == f.cols && rows == f.rows,
{
}

/// The element of kind `kind` its fields describe.
pub open spec fn element_of(kind: u8, f: FieldsView) -> ElementView {
    if kind == BOUNDARY {
        ElementView::Boundary { layer: f.layer, xy: f.xy }
    } else if kind == PATH {
        ElementView::Path { layer: f.layer, width: f.width, xy: f.xy }
    } else if kind == SREF {
        ElementView::SRef { sname: f.sname, xy: f.point, strans: f.strans, mag: f.mag, angle: f.angle }
    } else if kind == AREF {
        ElementView::ARef {
            sname: f.sname,
            xy: f.xy,
            cols: f.cols,
            rows: f.rows,
            strans: f.strans,
            mag: f.mag,
            angle: f.angle,
        }
    } else {
        ElementView::Text { layer: f.layer, xy: f.point, text: f.text }
    }
}

/// Whether a record type opens an element.
pub open spec fn is_element_start(t: u8) -> bool {
    t == BOUNDARY || t == PATH || t == SREF || t == AREF || t == TEXT
}

/// The element opened at index `start` and the index after it.
pub open spec fn element_at(recs: Seq<RecordView>, start: nat) -> (ElementView, nat) {
    let kind = recs[start as int].record_type;
    let (f, next) = scan_element(kind, recs, start + 1, initial_fields());
    (element_of(kind, f), next)
}

/// Scanning never moves backwards.
pub proof fn lemma_scan_advances(kind: u8, recs: Seq<RecordView>, i: nat, st: FieldsView)
    ensures
        scan_element(kind, recs, i, st).1 >= i,
        i < recs.len() ==> scan_element(kind, recs, i, st).1 <= recs.len(),
        i >= recs.len() ==> scan_element(kind, recs, i, st).1 == i,
        i <= recs.len() ==> scan_element(kind, recs, i, st).1 <= recs.len(),
    decreases recs.len() - i,
{
    if i < recs.len() && recs[i as int].record_type != ENDEL {
        lemma_scan_advances(kind, recs, i + 1, apply_record(kind, st, recs[i as int]));
    }
}

/// The elements of a structure from index `i` up to its ENDSTR, and the
/// index of that ENDSTR (or the end of the records). Records that open no
/// element are skipped.
pub open spec fn elements_from(recs: Seq<RecordView>, i: nat) -> (Seq<ElementView>, nat)
    decreases recs.len() - i,
{
    if i >= recs.len() || recs[i as int].record_type == ENDSTR {
        (Seq::empty(), i)
    } else if is_element_start(recs[i as int].record_type) {
        let (e, j) = element_at(recs, i);
        proof {
            lemma_scan_advances(recs[i as int].record_type, recs, i + 1, initial_fields());
        }
        let (rest, k) = elements_from(recs, j);
        (seq![e] + rest, k)
    } else {
        elements_from(recs, i + 1)
    }
}

/// Message for a structure whose name record is missing.
pub open spec fn missing_name_message() -> Seq<char> {
    "GDSII: expected STRNAME after BGNSTR"@
}

/// The structures from index `i` on. Each BGNSTR must be followed by its
/// STRNAME; records outside structures are skipped.
pub open spec fn structures_from(recs: Seq<RecordView>, i: nat) -> Result<Seq<StructureView>, Seq<char>>
    decreases recs.len() - i,
{
    if i >= recs.len() {
        Ok(Seq::empty())
    } else if recs[i as int].record_type == BGNSTR {
        if i + 1 >= recs.len() || recs[i + 1int].record_type != STRNAME {
            Err(missing_name_message())
        } else {
            let name = ascii_value(recs[i + 1int].data);
            let (elems, j) = elements_from(recs, i + 2);
            proof {
                lemma_elements_advance(recs, i + 2);
            }
            let after = if j < recs.len() && recs[j as int].record_type == ENDSTR {
                j + 1
            } else {
                j
            };
            match structures_from(recs, after) {
                Ok(rest) => Ok(seq![StructureView { name, elements: elems }] + rest),
                Err(e) => Err(e),
            }
        }
    } else {
        structures_from(recs, i + 1)
    }
}

/// Reading elements never moves backwards.
pub proof fn lemma_elements_advance(recs: Seq<RecordView>, i: nat)
    ensures
        elements_from(recs, i).1 >= i,
        i <= recs.len() ==> elements_from(recs, i).1 <= recs.len(),
    decreases recs.len() - i,
{
    if i >= recs.len() || recs[i as int].record_type == ENDSTR {
    } else if is_element_start(recs[i as int].record_type) {
        lemma_scan_advances(recs[i as int].record_type, recs, i + 1, initial_fields());
        let (e, j) = element_at(recs, i);
        lemma_elements_advance(recs, j);
    } else {
        lemma_elements_advance(recs, i + 1);
    }
}

// ───────────────────────────── reading elements ─────────────────────────────

/// The fields of an element while its records are read.
struct Fields {
    layer: i16,
    width: i32,
    xy: Vec<(i32, i32)>,
    point: (i32, i32),
    sname: String,
    strans: u16,
    mag: u64,
    angle: u64,
    cols: i16,
    rows: i16,
    text: String,
}

impl View for Fields {
    type V = FieldsView;

    closed spec fn view(&self) -> FieldsView {
        FieldsView {
            layer: self.layer,
            width: self.width,
            xy: self.xy@,
            point: self.point,
            sname: self.sname@,
            strans: self.strans,
            mag: self.mag,
            angle: self.angle,
            cols: self.cols,
            rows: self.rows,
            text: self.text@,
        }
    }
}

/// Applies one record of an element of kind `kind` to its fields.
fn apply_record_exec(kind: u8, f: &mut Fields, r: &Record)
    ensures
        final(f)@ == apply_record(kind, old(f)@, r@),
{
    let t = r.record_type;
    if t == LAYER && (kind == BOUNDARY || kind == PATH || kind == TEXT) {
        let vals = get_i16(&r.data);
        if vals.len() > 0 {
            f.layer = vals[0];
        }
    } else if t == WIDTH && kind == PATH {
        let vals = get_i32(&r.data);
        if vals.len() > 0 {
            f.width = vals[0];
        }
    } else if t == XY && (kind == BOUNDARY || kind == PATH || kind == AREF) {
        f.xy = get_xy_pairs(&r.data);
    } else if t == XY && (kind == SREF || kind == TEXT) {
        let pairs = get_xy_pairs(&r.data);
        if pairs.len() > 0 {
            f.point = pairs[0];
        }
    } else if t == SNAME && (kind == SREF || kind == AREF) {
        f.sname = get_ascii(&r.data);
    } else if t == STRANS && (kind == SREF || kind == AREF) {
        let vals = get_bitarray(&r.data);
        if vals.len() > 0 {
            f.strans = vals[0];
        }
    } else if t == MAG && (kind == SREF || kind == AREF) {
        let vals = get_real8(&r.data);
        if vals.len() > 0 {
            f.mag = vals[0];
        }
    } else if t == ANGLE && (kind == SREF || kind == AREF) {
        let vals = get_real8(&r.data);
        if vals.len() > 0 {
            f.angle = vals[0];
        }
    } else if t == COLROW && kind == AREF {
        let vals = get_i16(&r.data);
        if vals.len() >= 2 {
            f.cols = vals[0];
            f.rows = vals[1];
        }
    } else if t == STRING && kind == TEXT {
        f.text = get_ascii(&r.data);
    }
}

/// Parses the element opened by the record at `start`: its fields up to the
/// element's ENDEL, and the index after it.
pub fn parse_element(records: &[Record], start: usize) -> (res: (GdsElement, usize))
    requires
        start < records.len(),
    ensures
        (res.0@, res.1 as nat) == element_at(records_view(records@), start as nat),
{
    let ghost recs = records_view(records@);
    let kind = records[start].record_type;
    let mut f = Fields {
        layer: 0,
        width: 0,
        xy: Vec::new(),
        point: (0, 0),
        sname: String::new(),
        strans: 0,
        mag: MAG_ONE,
        angle: 0,
        cols: 1,
        rows: 1,
        text: String::new(),
    };
    let mut i = start + 1;
    assert(f@ == initial_fields());
    while i < records.len() && records[i].record_type != ENDEL
        invariant
            start < i <= records.len(),
            recs == records_view(records@),
            kind == recs[start as int].record_type,
            scan_element(kind, recs, (start + 1) as nat, initial_fields())
                == scan_element(kind, recs, i as nat, f@),
        decreases records.len() - i,
    {
        apply_record_exec(kind, &mut f, &records[i]);
        i += 1;
    }
    if i < records.len() && records[i].record_type == ENDEL {
        i += 1;
    }
    let elem = if kind == BOUNDARY {
        GdsElement::Boundary { layer: f.layer, xy: f.xy }
    } else if kind == PATH {
        GdsElement::Path { layer: f.layer, width: f.width, xy: f.xy }
    } else if kind == SREF {
        GdsElement::SRef { sname: f.sname, xy: f.point, strans: f.strans, mag: f.mag, angle: f.angle }
    } else if kind == AREF {
        GdsElement::ARef {
            sname: f.sname,
            xy: f.xy,
            cols: f.cols,
            rows: f.rows,
            strans: f.strans,
            mag: f.mag,
            angle: f.angle,
        }
    } else {
        GdsElement::Text { layer: f.layer, xy: f.point, text: f.text }
    };
    (elem, i)
}

/// Parses the elements of a structure from `start` up to its ENDSTR.
fn parse_elements(records: &[Record], start: usize) -> (res: (Vec<GdsElement>, usize))
    requires
        start <= records.len(),
    ensures
        (elements_view(res.0@), res.1 as nat) == elements_from(records_view(records@), start as nat),
{
    let ghost recs = records_view(records@);
    let mut elements: Vec<GdsElement> = Vec::new();
    let mut i = start;
    while i < records.len() && records[i].record_type != ENDSTR
        invariant
            start <= i <= records.len(),
            recs == records_view(records@),
            elements_from(recs, start as nat).0 == elements_view(elements@) + elements_from(recs, i as nat).0,
            elements_from(recs, start as nat).1 == elements_from(recs, i as nat).1,
        decreases records.len() - i,
    {
        let t = records[i].record_type;
        if t == BOUNDARY || t == PATH || t == SREF || t == AREF || t == TEXT {
            let ghost before = elements_view(elements@);
            let (elem, next) = parse_element(records, i);
            proof {
                lemma_scan_advances(t, recs, (i + 1) as nat, initial_fields());
            }
            let ghost ev = elem@;
            elements.push(elem);
            proof {
                assert(elements_view(elements@) == before.push(ev));
                let rest = elements_from(recs, next as nat).0;
                assert(before + (seq![ev] + rest) == before.push(ev) + rest);
            }
            i = next;
        } else {
            i += 1;
        }
    }
    proof {
        assert(elements_from(recs, i as nat).0 == Seq::<ElementView>::empty());
        assert(elements_view(elements@) + Seq::<ElementView>::empty() == elements_view(elements@));
    }
    (elements, i)
}

/// Prepends structures to a read result.
pub open spec fn prepend_structures(done: Seq<StructureView>, r: Result<Seq<StructureView>, Seq<char>>) -> Result<Seq<StructureView>, Seq<char>> {
    match r {
        Ok(rest) => Ok(done + rest),
        Err(e) => Err(e),
    }
}

/// Whether a structure result matches its specification.
pub open spec fn structures_match(r: Result<Vec<GdsStructure>, ExtractError>, s: Result<Seq<StructureView>, Seq<char>>) -> bool {
    match r {
        Ok(v) => s == Ok::<Seq<StructureView>, Seq<char>>(structures_view(v@)),
        Err(ExtractError::ParseError(m)) => s == Err::<Seq<StructureView>, Seq<char>>(m@),
        Err(_) => false,
    }
}

/// Groups records into structures (cells): each BGNSTR, its STRNAME, and the
/// elements up to ENDSTR.
pub fn parse_structures(records: &[Record]) -> (res: Result<Vec<GdsStructure>, ExtractError>)
    ensures
        structures_match(res, structures_from(records_view(records@), 0)),
{
    let ghost recs = records_view(records@);
    let mut structures: Vec<GdsStructure> = Vec::new();
    let mut i: usize = 0;
    while i < records.len()
        invariant
            i <= records.len(),
            recs == records_view(records@),
            structures_from(recs, 0) == prepend_structures(structures_view(structures@), structures_from(recs, i as nat)),
        decreases records.len() - i,
    {
        if records[i].record_type == BGNSTR {
            if i + 1 >= records.len() || records[i + 1].record_type != STRNAME {
                return Err(ExtractError::ParseError(to_string("GDSII: expected STRNAME after BGNSTR")));
            }
            let name = get_ascii(&records[i + 1].data);
            let (elements, j) = parse_elements(records, i + 2);
            proof {
                lemma_elements_advance(recs, (i + 2) as nat);
            }
            let mut k = j;
            if k < records.len() && records[k].record_type == ENDSTR {
                k += 1;
            }
            let ghost before = structures_view(structures@);
            let st = GdsStructure { name, elements };
            let ghost sv = st@;
            structures.push(st);
            proof {
                assert(structures_view(structures@) == before.push(sv));
                match structures_from(recs, k as nat) {
                    Ok(rest) => {
                        assert(before + (seq![sv] + rest) == before.push(sv) + rest);
                    },
                    Err(_) => {},
                }
            }
            i = k;
        } else {
            i += 1;
        }
    }
    proof {
        assert(structures_view(structures@) + Seq::<StructureView>::empty() == structures_view(structures@));
    }
    Ok(structures)
}

// ───────────────────────────── library ─────────────────────────────

/// Reads all records of a GDSII stream leniently: an undefined data type
/// reads as an empty payload, and reading goes on past ENDLIB.
pub fn parse_records(data: &[u8]) -> (res: Result<Vec<Record>, ExtractError>)
    ensures
        reader::read_matches(res, reader::records_spec(data@, false)),
{
    reader::read_records(data, false)
}

/// The name of a GDSII layer number: 0 is the front (`F`), 1 the back (`B`),
/// 2 to 31 are inner layers `In{n}`, and any other number is `L{n}`.
pub open spec fn layer_name_spec(layer: i16) -> Seq<char> {
    if layer == 0 {
        "F"@
    } else if layer == 1 {
        "B"@
    } else if 2 <= layer <= 31 {
        "In"@ + decimal(layer as nat)
    } else {
        "L"@ + signed_decimal(layer as int)
    }
}

/// Maps a GDSII layer number to a layer name (see [`layer_name_spec`]).
pub fn layer_name(layer: i16) -> (res: String)
    ensures
        res@ == layer_name_spec(layer),
{
    if layer == 0 {
        to_string("F")
    } else if layer == 1 {
        to_string("B")
    } else if 2 <= layer && layer <= 31 {
        let mut s = to_string("In");
        let d = crate::text::decimal_chars(layer as u64);
        push_chars(&mut s, &d);
        s
    } else {
        let mut s = to_string("L");
        let d = signed_decimal_chars(layer as i64);
        push_chars(&mut s, &d);
        s
    }
}

/// The side a layer is drawn on: `B` for layer 1, `F` for every other layer.
pub fn layer_side(layer: i16) -> (res: &'static str)
    ensures
        res@ == (if layer == 1 { "B"@ } else { "F"@ }),
{
    if layer == 1 {
        "B"
    } else {
        "F"
    }
}

/// The library name: the text of the first LIBNAME record, or empty.
pub open spec fn libname_of(recs: Seq<RecordView>) -> Seq<char>
    decreases recs.len(),
{
    if recs.len() == 0 {
        Seq::empty()
    } else if recs[0].record_type == LIBNAME {
        ascii_value(recs[0].data)
    } else {
        libname_of(recs.skip(1))
    }
}

/// The raw user and database units of the first UNITS record that carries
/// both, if any.
pub open spec fn units_of(recs: Seq<RecordView>) -> Option<(u64, u64)>
    decreases recs.len(),
{
    if recs.len() == 0 {
        None
    } else if recs[0].record_type == reader::UNITS && real8_values(recs[0].data).len() >= 2 {
        Some((real8_values(recs[0].data)[0], real8_values(recs[0].data)[1]))
    } else {
        units_of(recs.skip(1))
    }
}

/// Extracts the library name from records.
pub fn extract_libname(records: &[Record]) -> (res: String)
    ensures
        res@ == libname_of(records_view(records@)),
{
    let ghost recs = records_view(records@);
    let mut i: usize = 0;
    assert(recs.skip(0) == recs);
    while i < records.len()
        invariant
            i <= records.len(),
            recs == records_view(records@),
            libname_of(recs) == libname_of(recs.skip(i as int)),
        decreases records.len() - i,
    {
        assert(recs.skip(i as int).skip(1) == recs.skip(i + 1));
        if records[i].record_type == LIBNAME {
            return get_ascii(&records[i].data);
        }
        i += 1;
    }
    String::new()
}

/// Extracts the raw units of the first UNITS record with two reals.
pub fn extract_units(records: &[Record]) -> (res: Option<(u64, u64)>)
    ensures
        res == units_of(records_view(records@)),
{
    let ghost recs = records_view(records@);
    let mut i: usize = 0;
    assert(recs.skip(0) == recs);
    while i < records.len()
        invariant
            i <= records.len(),
            recs == records_view(records@),
            units_of(recs) == units_of(recs.skip(i as int)),
        decreases records.len() - i,
    {
        assert(recs.skip(i as int).skip(1) == recs.skip(i + 1));
        if records[i].record_type == reader::UNITS {
            let vals = get_real8(&records[i].data);
            if vals.len() >= 2 {
                return Some((vals[0], vals[1]));
            }
        }
        i += 1;
    }
    None
}

/// Whether an element places the cell named `name`.
pub open spec fn element_references(e: ElementView, name: Seq<char>) -> bool {
    match e {
        ElementView::SRef { sname, .. } => sname == name,
        ElementView::ARef { sname, .. } => sname == name,
        _ => false,
    }
}

/// Whether some element of some structure places the cell named `name`.
pub open spec fn is_referenced(ss: Seq<StructureView>, name: Seq<char>) -> bool {
    exists|i: int, j: int|
        0 <= i < ss.len() && 0 <= j < ss[i].elements.len() && element_references(
            #[trigger] ss[i].elements[j],
            name,
        )
}

/// The top-level structure: the last one that no structure places, or the
/// last structure when every one is placed somewhere.
pub open spec fn top_structure(ss: Seq<StructureView>) -> Option<int> {
    if ss.len() == 0 {
        None
    } else if exists|i: int| 0 <= i < ss.len() && !is_referenced(ss, #[trigger] ss[i].name) {
        Some(choose|i: int| 0 <= i < ss.len() && !is_referenced(ss, ss[i].name)
            && forall|k: int| i < k < ss.len() ==> is_referenced(ss, #[trigger] ss[k].name))
    } else {
        Some(ss.len() - 1)
    }
}

/// Whether `name` is one of `names`.
pub open spec fn has_name(names: Seq<String>, name: Seq<char>) -> bool {
    exists|k: int| 0 <= k < names.len() && #[trigger] names[k]@ == name
}

/// Whether an element among the first `n` places the cell named `name`.
pub open spec fn placed_in(es: Seq<ElementView>, n: int, name: Seq<char>) -> bool {
    exists|b: int| 0 <= b < n && element_references(#[trigger] es[b], name)
}

/// Whether an element of one of the first `n` structures places `name`.
pub open spec fn placed_before(ss: Seq<StructureView>, n: int, name: Seq<char>) -> bool {
    exists|a: int| 0 <= a < n && placed_in(#[trigger] ss[a].elements, ss[a].elements.len() as int, name)
}

/// Both ways of saying that some structure places a cell agree.
proof fn lemma_placed_before_all(ss: Seq<StructureView>, name: Seq<char>)
    ensures
        placed_before(ss, ss.len() as int, name) <==> is_referenced(ss, name),
{
    if placed_before(ss, ss.len() as int, name) {
        let a = choose|a: int| 0 <= a < ss.len() && placed_in(#[trigger] ss[a].elements, ss[a].elements.len() as int, name);
        let b = choose|b: int| 0 <= b < ss[a].elements.len() && element_references(#[trigger] ss[a].elements[b], name);
        assert(element_references(ss[a].elements[b], name));
    }
    if is_referenced(ss, name) {
        let (a, b) = choose|a: int, b: int|
            0 <= a < ss.len() && 0 <= b < ss[a].elements.len() && element_references(#[trigger] ss[a].elements[b], name);
        assert(placed_in(ss[a].elements, ss[a].elements.len() as int, name));
    }
}

/// The cell names that the elements of the structures place, in order.
fn referenced_names(structures: &[GdsStructure]) -> (res: Vec<String>)
    ensures
        forall|name: Seq<char>| #[trigger] has_name(res@, name) <==> is_referenced(structures_view(structures@), name),
{
    let ghost ss = structures_view(structures@);
    let mut names: Vec<String> = Vec::new();
    let mut i: usize = 0;
    while i < structures.len()
        invariant
            i <= structures.len(),
            ss == structures_view(structures@),
            forall|name: Seq<char>| #[trigger] has_name(names@, name) <==> placed_before(ss, i as int, name),
        decreases structures.len() - i,
    {
        let elems = &structures[i].elements;
        let ghost es = ss[i as int].elements;
        assert(es == elements_view(elems@));
        let mut j: usize = 0;
        while j < elems.len()
            invariant
                i < structures.len(),
                j <= elems.len(),
                ss == structures_view(structures@),
                es == ss[i as int].elements,
                es == elements_view(elems@),
                forall|name: Seq<char>| #[trigger] has_name(names@, name) <==> (placed_before(ss, i as int, name)
                    || placed_in(es, j as int, name)),
            decreases elems.len() - j,
        {
            let ghost old_names = names@;
            proof {
                assert forall|name: Seq<char>| #[trigger] placed_in(es, j + 1, name) <==> (placed_in(es, j as int, name)
                    || element_references(es[j as int], name)) by {
                    if element_references(es[j as int], name) {
                        assert(0 <= j < j + 1);
                    }
                    if placed_in(es, j + 1, name) {
                        let b = choose|b: int| 0 <= b < j + 1 && element_references(#[trigger] es[b], name);
                        if b < j {
                            assert(placed_in(es, j as int, name));
                        }
                    }
                }
            }
            match &elems[j] {
                GdsElement::SRef { sname, .. } | GdsElement::ARef { sname, .. } => {
                    names.push(to_string(sname.as_str()));
                    proof {
                        assert forall|name: Seq<char>| #[trigger] has_name(names@, name) <==> (has_name(old_names, name)
                            || name == sname@) by {
                            if name == sname@ {
                                assert(names@[old_names.len() as int]@ == name);
                            }
                            if has_name(old_names, name) {
                                let k = choose|k: int| 0 <= k < old_names.len() && #[trigger] old_names[k]@ == name;
                                assert(names@[k] == old_names[k]);
                            }
                            if has_name(names@, name) {
                                let k = choose|k: int| 0 <= k < names@.len() && #[trigger] names@[k]@ == name;
                                if k < old_names.len() {
                                    assert(old_names[k] == names@[k]);
                                }
                            }
                        }
                    }
                },
                _ => {},
            }
            j += 1;
        }
        proof {
            assert forall|name: Seq<char>| #[trigger] placed_before(ss, i + 1, name) <==> (placed_before(ss, i as int, name)
                || placed_in(es, elems.len() as int, name)) by {
                if placed_in(es, elems.len() as int, name) {
                    assert(placed_in(ss[i as int].elements, ss[i as int].elements.len() as int, name));
                }
                if placed_before(ss, i + 1, name) {
                    let a = choose|a: int| 0 <= a < i + 1 && placed_in(#[trigger] ss[a].elements, ss[a].elements.len() as int, name);
                    if a < i {
                        assert(placed_before(ss, i as int, name));
                    }
                }
            }
        }
        i += 1;
    }
    proof {
        assert forall|name: Seq<char>| #[trigger] has_name(names@, name) <==> is_referenced(ss, name) by {
            lemma_placed_before_all(ss, name);
        }
    }
    names
}

/// Whether `name` equals one of `names`.
pub(crate) fn contains_name(names: &[String], name: &str) -> (res: bool)
    ensures
        res == has_name(names@, name@),
{
    let target = crate::text::chars_of(name);
    let mut k: usize = 0;
    while k < names.len()
        invariant
            k <= names.len(),
            target@ == name@,
            forall|m: int| 0 <= m < k ==> #[trigger] names@[m]@ != name@,
        decreases names.len() - k,
    {
        let cs = crate::text::chars_of(names[k].as_str());
        if crate::text::eq_chars(&cs, &target) {
            return true;
        }
        k += 1;
    }
    false
}

/// Finds the top-level structure: the last one not placed by any SREF or
/// AREF, else the last structure; `None` when there are no structures.
pub fn find_top_structure(structures: &[GdsStructure]) -> (res: Option<usize>)
    ensures
        match res {
            Some(i) => top_structure(structures_view(structures@)) == Some(i as int),
            None => top_structure(structures_view(structures@)) is None,
        },
{
    let ghost ss = structures_view(structures@);
    if structures.len() == 0 {
        return None;
    }
    let names = referenced_names(structures);
    let mut i: usize = structures.len();
    while i > 0
        invariant
            i <= structures.len(),
            ss == structures_view(structures@),
            forall|name: Seq<char>| #[trigger] has_name(names@, name) <==> is_referenced(ss, name),
            forall|k: int| i <= k < ss.len() ==> is_referenced(ss, #[trigger] ss[k].name),
        decreases i,
    {
        i -= 1;
        assert(ss[i as int].name == structures@[i as int].name@);
        if !contains_name(&names, structures[i].name.as_str()) {
            proof {
                assert(!is_referenced(ss, ss[i as int].name));
                let w = choose|w: int| 0 <= w < ss.len() && !is_referenced(ss, ss[w].name)
                    && forall|k: int| w < k < ss.len() ==> is_referenced(ss, #[trigger] ss[k].name);
                if w < i {
                    assert(is_referenced(ss, ss[i as int].name));
                } else if w > i {
                    assert(is_referenced(ss, ss[w].name));
                }
            }
            return Some(i);
        }
    }
    proof {
        assert forall|k: int| 0 <= k < ss.len() implies is_referenced(ss, #[trigger] ss[k].name) by {}
    }
    Some(structures.len() - 1)
}

/// A GDSII library as read from a stream, before any geometry is placed.
#[derive(Debug)]
pub struct GdsLibrary {
    pub libname: String,
    /// Raw user units per database unit and meters per database unit, when
    /// the stream gives them.
    pub units: Option<(u64, u64)>,
    pub structures: Vec<GdsStructure>,
    /// Index of the top-level structure.
    pub top: usize,
}

/// The mathematical content of a library.
pub struct LibraryView {
    pub libname: Seq<char>,
    pub units: Option<(u64, u64)>,
    pub structures: Seq<StructureView>,
    pub top: int,
}

/// What reading a GDSII stream gives: an error for a stream under four
/// bytes, one whose first record is not HEADER, one whose records cannot be
/// read, one with no records or no structures; otherwise the library name,
/// the units, the structures and the top-level structure.
pub open spec fn library_spec(data: Seq<u8>) -> Result<LibraryView, Seq<char>> {
    if data.len() < 4 {
        Err("GDSII: file too small"@)
    } else if data[2] != reader::HEADER {
        Err("GDSII: missing HEADER record"@)
    } else {
        match reader::records_spec(data, false) {
            Err(e) => Err(e),
            Ok(recs) => if recs.len() == 0 {
                Err("GDSII: no records found"@)
            } else {
                match structures_from(recs, 0) {
                    Err(e) => Err(e),
                    Ok(ss) => if ss.len() == 0 {
                        Err("GDSII: no structures found"@)
                    } else {
                        Ok(LibraryView {
                            libname: libname_of(recs),
                            units: units_of(recs),
                            structures: ss,
                            top: top_structure(ss)->0,
                        })
                    },
                }
            },
        }
    }
}

/// Whether a library result matches its specification.
pub open spec fn library_matches(r: Result<GdsLibrary, ExtractError>, s: Result<LibraryView, Seq<char>>) -> bool {
    match r {
        Ok(lib) => s == Ok::<LibraryView, Seq<char>>(LibraryView {
            libname: lib.libname@,
            units: lib.units,
            structures: structures_view(lib.structures@),
            top: lib.top as int,
        }),
        Err(ExtractError::ParseError(m)) => s == Err::<LibraryView, Seq<char>>(m@),
        Err(_) => false,
    }
}

/// Reads a GDSII library: checks the header, reads the records and groups
/// them into structures, and finds the top-level structure.
pub fn read_library(data: &[u8]) -> (res: Result<GdsLibrary, ExtractError>)
    ensures
        library_matches(res, library_spec(data@)),
{
    if data.len() < 4 {
        return Err(ExtractError::ParseError(to_string("GDSII: file too small")));
    }
    if data[2] != reader::HEADER {
        return Err(ExtractError::ParseError(to_string("GDSII: missing HEADER record")));
    }
    let records = match parse_records(data) {
        Ok(r) => r,
        Err(e) => return Err(e),
    };
    if records.len() == 0 {
        return Err(ExtractError::ParseError(to_string("GDSII: no records found")));
    }
    let units = extract_units(&records);
    let libname = extract_libname(&records);
    let structures = match parse_structures(&records) {
        Ok(s) => s,
        Err(e) => return Err(e),
    };
    if structures.len() == 0 {
        return Err(ExtractError::ParseError(to_string("GDSII: no structures found")));
    }
    let top = match find_top_structure(&structures) {
        Some(t) => t,
        None => structures.len() - 1,
    };
    Ok(GdsLibrary { libname, units, structures, top })
}

} // verus!
