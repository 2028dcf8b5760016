//! EasyEDA JSON boards: layer categories and sides, and the components
//! with their pads and drawings, read from the `~`-separated shape strings.
use vstd::prelude::*;
use crate::text::{
    chars_of, eq_str, nth_field, nth_field_exec, parse_unsigned, parse_unsigned_exec, split_at_char, split_chars,
    string_from_chars, views_of,
};

verus! {

/// Board-level category of an EasyEDA layer id.
#[derive(Debug, Clone, Copy, PartialEq, Eq, Structural)]
pub enum EasyEdaLayerCat {
    CopperF,
    CopperB,
    SilkF,
    SilkB,
    Edge,
    Other,
}

pub open spec fn easyeda_cat_spec(layer_id: int) -> EasyEdaLayerCat {
    if layer_id == 1 { EasyEdaLayerCat::CopperF }
    else if layer_id == 2 { EasyEdaLayerCat::CopperB }
    else if layer_id == 3 { EasyEdaLayerCat::SilkF }
    else if layer_id == 4 { EasyEdaLayerCat::SilkB }
    else if layer_id == 10 { EasyEdaLayerCat::Edge }
    else { EasyEdaLayerCat::Other }
}

/// Side letter: "B" for the bottom copper, silkscreen, solder mask and paste
/// layers (2, 4, 6, 13), "F" for everything else.
pub open spec fn easyeda_side_spec(layer_id: int) -> Seq<char> {
    if layer_id == 2 || layer_id == 4 || layer_id == 6 || layer_id == 13 { "B"@ } else { "F"@ }
}

/// The side of a layer agrees with its board category: bottom copper and
/// bottom silkscreen are on the bottom ("B"), top copper and top
/// silkscreen on the top ("F"); the bottom mask and paste layers (6, 13) are
/// on the bottom like their top counterparts (5, 12) are on the top, and the
/// side is "B" for exactly those four bottom layers.
pub proof fn lemma_side_follows_layer(layer_id: int)
    ensures
        easyeda_cat_spec(layer_id) == EasyEdaLayerCat::CopperB ==> easyeda_side_spec(layer_id) == "B"@,
        easyeda_cat_spec(layer_id) == EasyEdaLayerCat::SilkB ==> easyeda_side_spec(layer_id) == "B"@,
        easyeda_cat_spec(layer_id) == EasyEdaLayerCat::CopperF ==> easyeda_side_spec(layer_id) == "F"@,
        easyeda_cat_spec(layer_id) == EasyEdaLayerCat::SilkF ==> easyeda_side_spec(layer_id) == "F"@,
        easyeda_cat_spec(layer_id) == EasyEdaLayerCat::Edge ==> easyeda_side_spec(layer_id) == "F"@,
        easyeda_side_spec(layer_id) == "B"@ <==> (easyeda_cat_spec(layer_id) == EasyEdaLayerCat::CopperB
            || easyeda_cat_spec(layer_id) == EasyEdaLayerCat::SilkB || layer_id == 6 || layer_id == 13),
        easyeda_side_spec(layer_id) == "B"@ || easyeda_side_spec(layer_id) == "F"@,
{
    reveal_strlit("B");
    reveal_strlit("F");
    assert("B"@[0] != "F"@[0]);
}

pub fn categorize_easyeda_layer(layer_id: u32) -> (res: EasyEdaLayerCat)
    ensures
        res == easyeda_cat_spec(layer_id as int),
{
    match layer_id {
        1 => EasyEdaLayerCat::CopperF,
        2 => EasyEdaLayerCat::CopperB,
        3 => EasyEdaLayerCat::SilkF,
        4 => EasyEdaLayerCat::SilkB,
        10 => EasyEdaLayerCat::Edge,
        _ => EasyEdaLayerCat::Other,
    }
}

pub fn easyeda_layer_to_side(layer_id: u32) -> (res: &'static str)
    ensures
        res@ == easyeda_side_spec(layer_id as int),
{
    match layer_id {
        1 | 3 | 5 | 12 => "F",
        2 | 4 | 6 | 13 => "B",
        11 => "F", // Multi-layer, treat as front
        _ => "F",
    }
}


// ───────────────────────────── components ─────────────────────────────

/// An EasyEDA component as its JSON object holds it: the string entries of
/// `c_para`, the string `title` of `packageDetail`, and the string entries of
/// `shape` (`None` when `shape` is not an array).
#[derive(Debug, Clone)]
pub struct EasyEdaComponent {
    pub c_para: Vec<(String, String)>,
    pub package_title: Option<String>,
    pub shapes: Option<Vec<String>>,
}

pub struct EasyEdaComponentView {
    pub c_para: Seq<(Seq<char>, Seq<char>)>,
    pub package_title: Option<Seq<char>>,
    pub shapes: Option<Seq<Seq<char>>>,
}

pub open spec fn opt_view(o: Option<String>) -> Option<Seq<char>> {
    match o {
        Some(s) => Some(s@),
        None => None,
    }
}

pub open spec fn strings_view(v: Seq<String>) -> Seq<Seq<char>> {
    Seq::new(v.len(), |i: int| v[i]@)
}

impl View for EasyEdaComponent {
    type V = EasyEdaComponentView;

    open spec fn view(&self) -> EasyEdaComponentView {
        EasyEdaComponentView {
            c_para: Seq::new(self.c_para@.len(), |i: int| (self.c_para@[i].0@, self.c_para@[i].1@)),
            package_title: opt_view(self.package_title),
            shapes: match self.shapes {
                Some(v) => Some(strings_view(v@)),
                None => None,
            },
        }
    }
}

/// A pad of a component; its lengths are the decimal text of the shape
/// string, in mils on the board's canvas.
#[derive(Debug, Clone)]
pub struct EasyEdaPad {
    /// `oval`, `rect`, `circle` or `custom`.
    pub shape: &'static str,
    pub x: String,
    pub y: String,
    pub width: String,
    pub height: String,
    /// The side of its layer.
    pub side: &'static str,
    /// On the multi-layer (id 11): on both sides, as a pad with a hole is.
    pub multi_layer: bool,
    pub net: Option<String>,
    pub pin1: bool,
    /// The hole radius; a pad whose hole radius is above zero goes through.
    pub hole_radius: String,
    pub rotation: Option<String>,
}

pub struct EasyEdaPadView {
    pub shape: Seq<char>,
    pub x: Seq<char>,
    pub y: Seq<char>,
    pub width: Seq<char>,
    pub height: Seq<char>,
    pub side: Seq<char>,
    pub multi_layer: bool,
    pub net: Option<Seq<char>>,
    pub pin1: bool,
    pub hole_radius: Seq<char>,
    pub rotation: Option<Seq<char>>,
}

impl View for EasyEdaPad {
    type V = EasyEdaPadView;

    open spec fn view(&self) -> EasyEdaPadView {
        EasyEdaPadView {
            shape: self.shape@,
            x: self.x@,
            y: self.y@,
            width: self.width@,
            height: self.height@,
            side: self.side@,
            multi_layer: self.multi_layer,
            net: opt_view(self.net),
            pin1: self.pin1,
            hole_radius: self.hole_radius@,
            rotation: opt_view(self.rotation),
        }
    }
}

/// A drawing of a component, on the side of its layer.
#[derive(Debug, Clone)]
pub enum EasyEdaDrawing {
    /// A polyline: `points` holds whitespace-separated x and y values.
    Track { width: String, side: &'static str, points: String },
    Circle { x: String, y: String, radius: String, width: String, side: &'static str },
}

pub enum EasyEdaDrawingView {
    Track { width: Seq<char>, side: Seq<char>, points: Seq<char> },
    Circle { x: Seq<char>, y: Seq<char>, radius: Seq<char>, width: Seq<char>, side: Seq<char> },
}

impl View for EasyEdaDrawing {
    type V = EasyEdaDrawingView;

    open spec fn view(&self) -> EasyEdaDrawingView {
        match self {
            EasyEdaDrawing::Track { width, side, points } => EasyEdaDrawingView::Track {
                width: width@,
                side: side@,
                points: points@,
            },
            EasyEdaDrawing::Circle { x, y, radius, width, side } => EasyEdaDrawingView::Circle {
                x: x@,
                y: y@,
                radius: radius@,
                width: width@,
                side: side@,
            },
        }
    }
}

/// A component as a footprint of the board: its names, its position among
/// the board's footprints, and its pads and drawings in shape order.
#[derive(Debug, Clone)]
pub struct EasyEdaFootprintPlan {
    pub reference: String,
    pub value: String,
    pub footprint_name: String,
    pub index: usize,
    pub pads: Vec<EasyEdaPad>,
    pub drawings: Vec<EasyEdaDrawing>,
}

pub struct EasyEdaFootprintView {
    pub reference: Seq<char>,
    pub value: Seq<char>,
    pub footprint_name: Seq<char>,
    pub index: int,
    pub pads: Seq<EasyEdaPadView>,
    pub drawings: Seq<EasyEdaDrawingView>,
}

impl View for EasyEdaFootprintPlan {
    type V = EasyEdaFootprintView;

    open spec fn view(&self) -> EasyEdaFootprintView {
        EasyEdaFootprintView {
            reference: self.reference@,
            value: self.value@,
            footprint_name: self.footprint_name@,
            index: self.index as int,
            pads: Seq::new(self.pads@.len(), |i: int| self.pads@[i]@),
            drawings: Seq::new(self.drawings@.len(), |i: int| self.drawings@[i]@),
        }
    }
}

pub open spec fn plan_view(o: Option<EasyEdaFootprintPlan>) -> Option<EasyEdaFootprintView> {
    match o {
        Some(p) => Some(p@),
        None => None,
    }
}

/// The value of the first `c_para` entry named `key`.
pub open spec fn para(c: Seq<(Seq<char>, Seq<char>)>, key: Seq<char>) -> Option<Seq<char>>
    decreases c.len(),
{
    if c.len() == 0 {
        None
    } else if c[0].0 == key {
        Some(c[0].1)
    } else {
        para(c.drop_first(), key)
    }
}

/// `a`, else `b`, else the empty text.
pub open spec fn first_of(a: Option<Seq<char>>, b: Option<Seq<char>>) -> Seq<char> {
    match a {
        Some(x) => x,
        None => match b {
            Some(y) => y,
            None => seq![],
        },
    }
}

/// A layer id field read as a `u32`, or 0.
pub open spec fn layer_id_of(t: Seq<char>) -> nat {
    match parse_unsigned(t, u32::MAX as int) {
        Some(n) => n,
        None => 0,
    }
}

pub open spec fn pad_shape_spec(t: Seq<char>) -> Seq<char> {
    if t == "ELLIPSE"@ || t == "OVAL"@ {
        "oval"@
    } else if t == "RECT"@ {
        "rect"@
    } else if t == "POLYGON"@ {
        "custom"@
    } else {
        "circle"@
    }
}

/// The pad of the fields `PAD~shape~x~y~width~height~layer~net~number~holeRadius~…~rotation`.
pub open spec fn pad_spec(parts: Seq<Seq<char>>) -> EasyEdaPadView {
    let layer = layer_id_of(parts[6]);
    EasyEdaPadView {
        shape: pad_shape_spec(parts[1]),
        x: parts[2],
        y: parts[3],
        width: parts[4],
        height: parts[5],
        side: easyeda_side_spec(layer as int),
        multi_layer: layer == 11,
        net: if parts[7].len() == 0 { None } else { Some(parts[7]) },
        pin1: parts[8] == "1"@ || parts[8] == "A1"@,
        hole_radius: parts[9],
        rotation: if parts.len() > 11 { Some(parts[11]) } else { None },
    }
}

/// The pads that one shape string gives: one for a `PAD` of ten fields or
/// more.
pub open spec fn shape_pads(shape: Seq<char>) -> Seq<EasyEdaPadView> {
    let parts = split_at_char(shape, '~');
    if parts.len() >= 10 && parts[0] == "PAD"@ {
        seq![pad_spec(parts)]
    } else {
        seq![]
    }
}

/// The drawings that one shape string gives: one for a `TRACK` of four
/// fields or more, one for a `CIRCLE` of six or more.
pub open spec fn shape_drawings(shape: Seq<char>) -> Seq<EasyEdaDrawingView> {
    let parts = split_at_char(shape, '~');
    if parts.len() >= 4 && parts[0] == "TRACK"@ {
        seq![EasyEdaDrawingView::Track {
            width: parts[1],
            side: easyeda_side_spec(layer_id_of(parts[2]) as int),
            points: parts[3],
        }]
    } else if parts.len() >= 6 && parts[0] == "CIRCLE"@ {
        seq![EasyEdaDrawingView::Circle {
            x: parts[1],
            y: parts[2],
            radius: parts[3],
            width: parts[4],
            side: easyeda_side_spec(layer_id_of(parts[5]) as int),
        }]
    } else {
        seq![]
    }
}

pub open spec fn pads_of(shapes: Seq<Seq<char>>) -> Seq<EasyEdaPadView>
    decreases shapes.len(),
{
    if shapes.len() == 0 {
        seq![]
    } else {
        pads_of(shapes.drop_last()) + shape_pads(shapes.last())
    }
}

pub open spec fn drawings_of(shapes: Seq<Seq<char>>) -> Seq<EasyEdaDrawingView>
    decreases shapes.len(),
{
    if shapes.len() == 0 {
        seq![]
    } else {
        drawings_of(shapes.drop_last()) + shape_drawings(shapes.last())
    }
}

/// What a component becomes as footprint number `fp_index`: nothing without
/// a `shape` array; else its reference (`Designator`, else `name`), value
/// (`Value`, else `comment`), footprint name (`Footprint`, else the package
/// title), and the pads and drawings of its shapes.
pub open spec fn component_spec(c: EasyEdaComponentView, fp_index: int) -> Option<EasyEdaFootprintView> {
    match c.shapes {
        None => None,
        Some(sh) => Some(EasyEdaFootprintView {
            reference: first_of(para(c.c_para, "Designator"@), para(c.c_para, "name"@)),
            value: first_of(para(c.c_para, "Value"@), para(c.c_para, "comment"@)),
            footprint_name: first_of(para(c.c_para, "Footprint"@), c.package_title),
            index: fp_index,
            pads: pads_of(sh),
            drawings: drawings_of(sh),
        }),
    }
}


pub open spec fn para_view(c: Seq<(String, String)>) -> Seq<(Seq<char>, Seq<char>)> {
    Seq::new(c.len(), |i: int| (c[i].0@, c[i].1@))
}

fn para_exec(c: &Vec<(String, String)>, key: &str) -> (res: Option<String>)
    ensures
        opt_view(res) == para(para_view(c@), key@),
{
    let ghost cv = para_view(c@);
    let mut i: usize = 0;
    assert(cv.subrange(0, cv.len() as int) =~= cv);
    while i < c.len()
        invariant
            i <= c@.len(),
            cv == para_view(c@),
            para(cv, key@) == para(cv.subrange(i as int, cv.len() as int), key@),
        decreases c@.len() - i,
    {
        let ghost rest = cv.subrange(i as int, cv.len() as int);
        assert(rest[0] == cv[i as int]);
        assert(rest.drop_first() =~= cv.subrange(i + 1, cv.len() as int));
        if eq_str(&chars_of(c[i].0.as_str()), key) {
            return Some(c[i].1.clone());
        }
        i += 1;
    }
    None
}

fn first_of_exec(a: Option<String>, b: Option<String>) -> (res: String)
    ensures
        res@ == first_of(opt_view(a), opt_view(b)),
{
    match a {
        Some(x) => x,
        None => match b {
            Some(y) => y,
            None => String::new(),
        },
    }
}

fn layer_id(t: &[char]) -> (res: u32)
    ensures
        res as nat == layer_id_of(t@),
{
    match parse_unsigned_exec(t, u32::MAX as u64) {
        Some(n) => n as u32,
        None => 0,
    }
}

fn pad_shape(t: &[char]) -> (res: &'static str)
    ensures
        res@ == pad_shape_spec(t@),
{
    if eq_str(t, "ELLIPSE") || eq_str(t, "OVAL") {
        "oval"
    } else if eq_str(t, "RECT") {
        "rect"
    } else if eq_str(t, "POLYGON") {
        "custom"
    } else {
        "circle"
    }
}

fn pad_exec(parts: &Vec<Vec<char>>) -> (res: EasyEdaPad)
    requires
        parts@.len() >= 10,
    ensures
        res@ == pad_spec(views_of(parts@)),
{
    let ghost pv = views_of(parts@);
    let layer = layer_id(&parts[6]);
    EasyEdaPad {
        shape: pad_shape(&parts[1]),
        x: string_from_chars(&parts[2]),
        y: string_from_chars(&parts[3]),
        width: string_from_chars(&parts[4]),
        height: string_from_chars(&parts[5]),
        side: easyeda_layer_to_side(layer),
        multi_layer: layer == 11,
        net: if parts[7].len() == 0 { None } else { Some(string_from_chars(&parts[7])) },
        pin1: eq_str(&parts[8], "1") || eq_str(&parts[8], "A1"),
        hole_radius: string_from_chars(&parts[9]),
        rotation: if parts.len() > 11 { Some(string_from_chars(&parts[11])) } else { None },
    }
}

/// The pads and drawings that one shape string gives.
fn shape_items(shape: &String) -> (res: (Vec<EasyEdaPad>, Vec<EasyEdaDrawing>))
    ensures
        Seq::new(res.0@.len(), |i: int| res.0@[i]@) == shape_pads(shape@),
        Seq::new(res.1@.len(), |i: int| res.1@[i]@) == shape_drawings(shape@),
{
    let parts = split_chars(&chars_of(shape.as_str()), '~');
    let ghost pv = views_of(parts@);
    assert(pv == split_at_char(shape@, '~'));
    let mut pads: Vec<EasyEdaPad> = Vec::new();
    let mut drawings: Vec<EasyEdaDrawing> = Vec::new();
    if parts.len() == 0 {
        return (pads, drawings);
    }
    let is_pad = eq_str(&parts[0], "PAD");
    let is_track = eq_str(&parts[0], "TRACK");
    let is_circle = eq_str(&parts[0], "CIRCLE");
    if parts.len() >= 10 && is_pad {
        pads.push(pad_exec(&parts));
        assert(Seq::new(pads@.len(), |i: int| pads@[i]@) =~= seq![pad_spec(pv)]);
    }
    if parts.len() >= 4 && is_track {
        let d = EasyEdaDrawing::Track {
            width: string_from_chars(&parts[1]),
            side: easyeda_layer_to_side(layer_id(&parts[2])),
            points: string_from_chars(&parts[3]),
        };
        let ghost dv = d@;
        drawings.push(d);
        assert(Seq::new(drawings@.len(), |i: int| drawings@[i]@) =~= seq![dv]);
    } else if parts.len() >= 6 && is_circle {
        let d = EasyEdaDrawing::Circle {
            x: string_from_chars(&parts[1]),
            y: string_from_chars(&parts[2]),
            radius: string_from_chars(&parts[3]),
            width: string_from_chars(&parts[4]),
            side: easyeda_layer_to_side(layer_id(&parts[5])),
        };
        let ghost dv = d@;
        drawings.push(d);
        assert(Seq::new(drawings@.len(), |i: int| drawings@[i]@) =~= seq![dv]);
    }
    proof {
        reveal_strlit("PAD");
        reveal_strlit("TRACK");
        reveal_strlit("CIRCLE");
    }
    assert(Seq::new(pads@.len(), |i: int| pads@[i]@) =~= shape_pads(shape@));
    assert(Seq::new(drawings@.len(), |i: int| drawings@[i]@) =~= shape_drawings(shape@));
    (pads, drawings)
}

/// The footprint that component `comp` becomes as footprint number
/// `fp_index`: `None` when it has no `shape` array, else its names chosen
/// from `c_para` and its pads and drawings, as [`component_spec`] states.
pub fn parse_easyeda_component(comp: &EasyEdaComponent, fp_index: usize) -> (res: Option<EasyEdaFootprintPlan>)
    ensures
        plan_view(res) == component_spec(comp@, fp_index as int),
{
    let shapes = match &comp.shapes {
        Some(v) => v,
        None => return None,
    };
    let ghost sv = strings_view(shapes@);
    let reference = first_of_exec(para_exec(&comp.c_para, "Designator"), para_exec(&comp.c_para, "name"));
    let value = first_of_exec(para_exec(&comp.c_para, "Value"), para_exec(&comp.c_para, "comment"));
    let footprint_name = first_of_exec(para_exec(&comp.c_para, "Footprint"), comp.package_title.clone());
    let mut pads: Vec<EasyEdaPad> = Vec::new();
    let mut drawings: Vec<EasyEdaDrawing> = Vec::new();
    let mut i: usize = 0;
    while i < shapes.len()
        invariant
            i <= shapes@.len(),
            sv == strings_view(shapes@),
            Seq::new(pads@.len(), |j: int| pads@[j]@) == pads_of(sv.take(i as int)),
            Seq::new(drawings@.len(), |j: int| drawings@[j]@) == drawings_of(sv.take(i as int)),
        decreases shapes@.len() - i,
    {
        let ghost p0 = Seq::new(pads@.len(), |j: int| pads@[j]@);
        let ghost d0 = Seq::new(drawings@.len(), |j: int| drawings@[j]@);
        let (mut ps, mut ds) = shape_items(&shapes[i]);
        let ghost pn = Seq::new(ps@.len(), |j: int| ps@[j]@);
        let ghost dn = Seq::new(ds@.len(), |j: int| ds@[j]@);
        pads.append(&mut ps);
        drawings.append(&mut ds);
        assert(sv.take(i + 1).drop_last() =~= sv.take(i as int));
        assert(sv.take(i + 1).last() == shapes@[i as int]@);
        assert(Seq::new(pads@.len(), |j: int| pads@[j]@) =~= p0 + pn);
        assert(Seq::new(drawings@.len(), |j: int| drawings@[j]@) =~= d0 + dn);
        i += 1;
    }
    assert(sv.take(shapes@.len() as int) =~= sv);
    let plan = EasyEdaFootprintPlan { reference, value, footprint_name, index: fp_index, pads, drawings };
    Some(plan)
}


pub open spec fn comps_view(cs: Seq<EasyEdaComponent>) -> Seq<EasyEdaComponentView> {
    Seq::new(cs.len(), |i: int| cs[i]@)
}

pub open spec fn plans_view(v: Seq<EasyEdaFootprintPlan>) -> Seq<EasyEdaFootprintView> {
    Seq::new(v.len(), |i: int| v[i]@)
}

/// The footprints of a board's components, in order: each component with a
/// `shape` array becomes the next footprint, numbered by its position.
pub open spec fn components_spec(cs: Seq<EasyEdaComponentView>) -> Seq<EasyEdaFootprintView>
    decreases cs.len(),
{
    if cs.len() == 0 {
        seq![]
    } else {
        let prev = components_spec(cs.drop_last());
        match component_spec(cs.last(), prev.len() as int) {
            Some(f) => prev.push(f),
            None => prev,
        }
    }
}

/// Reads every component of a board (those of `components`, then those of
/// `dataStr.routes`) into footprints, as [`components_spec`] states.
pub fn read_easyeda_components(comps: &[EasyEdaComponent]) -> (res: Vec<EasyEdaFootprintPlan>)
    ensures
        plans_view(res@) == components_spec(comps_view(comps@)),
{
    let ghost cv = comps_view(comps@);
    let mut out: Vec<EasyEdaFootprintPlan> = Vec::new();
    let mut i: usize = 0;
    while i < comps.len()
        invariant
            i <= comps@.len(),
            cv == comps_view(comps@),
            out@.len() <= i,
            plans_view(out@) == components_spec(cv.take(i as int)),
        decreases comps@.len() - i,
    {
        let ghost before = plans_view(out@);
        assert(cv.take(i + 1).drop_last() =~= cv.take(i as int));
        assert(cv.take(i + 1).last() == comps@[i as int]@);
        match parse_easyeda_component(&comps[i], out.len()) {
            Some(f) => {
                let ghost fv = f@;
                out.push(f);
                assert(plans_view(out@) =~= before.push(fv));
            },
            None => {},
        }
        i += 1;
    }
    assert(cv.take(comps@.len() as int) =~= cv);
    out
}

/// Footprint number `i` of a board carries the index `i`, so that a bill of
/// materials entry finds its footprint by that index.
pub proof fn lemma_footprint_index_is_position(cs: Seq<EasyEdaComponentView>)
    ensures
        forall|i: int| 0 <= i < components_spec(cs).len() ==> #[trigger] components_spec(cs)[i].index == i,
    decreases cs.len(),
{
    if cs.len() > 0 {
        let prev = components_spec(cs.drop_last());
        lemma_footprint_index_is_position(cs.drop_last());
        assert forall|i: int| 0 <= i < components_spec(cs).len() implies #[trigger] components_spec(cs)[i].index == i by {
            if i < prev.len() {
                assert(components_spec(cs)[i] == prev[i]);
            }
        }
    }
}

/// The PCB document of a list of EasyEDA documents: the first whose
/// `docType` is `"5"`.
pub fn pick_pcb_document(doc_types: &[Option<String>]) -> (res: Option<usize>)
    ensures
        match res {
            Some(i) => i < doc_types@.len() && opt_view(doc_types@[i as int]) == Some("5"@)
                && forall|j: int| 0 <= j < i ==> opt_view(#[trigger] doc_types@[j]) != Some("5"@),
            None => forall|j: int| 0 <= j < doc_types@.len() ==> opt_view(#[trigger] doc_types@[j]) != Some("5"@),
        },
{
    let mut i: usize = 0;
    while i < doc_types.len()
        invariant
            i <= doc_types@.len(),
            forall|j: int| 0 <= j < i ==> opt_view(#[trigger] doc_types@[j]) != Some("5"@),
        decreases doc_types@.len() - i,
    {
        match &doc_types[i] {
            Some(t) => {
                if eq_str(&chars_of(t.as_str()), "5") {
                    return Some(i);
                }
            },
            None => {},
        }
        i += 1;
    }
    None
}

/// The canvas origin fields of a board's `canvas` string: its 17th and 18th
/// `~`-separated fields, where it has them.
pub fn canvas_origin(canvas: &str) -> (res: (Option<String>, Option<String>))
    ensures
        opt_view(res.0) == nth_field(canvas@, '~', 16),
        opt_view(res.1) == nth_field(canvas@, '~', 17),
{
    let cs = chars_of(canvas);
    let x = match nth_field_exec(&cs, '~', 16) {
        Some(v) => Some(string_from_chars(&v)),
        None => None,
    };
    let y = match nth_field_exec(&cs, '~', 17) {
        Some(v) => Some(string_from_chars(&v)),
        None => None,
    };
    (x, y)
}

// ───────────────────────────── board shapes ─────────────────────────────

/// A shape string of the board itself, with the category of its layer.
#[derive(Debug, Clone)]
pub enum EasyEdaBoardShape {
    /// A polyline on a copper, silkscreen or edge layer; `points` holds
    /// whitespace-separated x and y values.
    Track { width: String, cat: EasyEdaLayerCat, points: String },
    /// A circle on a silkscreen or edge layer.
    Circle { x: String, y: String, radius: String, width: String, cat: EasyEdaLayerCat },
    /// An arc of the board edge, kept as a point of its width.
    Arc { width: String },
}

pub enum EasyEdaBoardShapeView {
    Track { width: Seq<char>, cat: EasyEdaLayerCat, points: Seq<char> },
    Circle { x: Seq<char>, y: Seq<char>, radius: Seq<char>, width: Seq<char>, cat: EasyEdaLayerCat },
    Arc { width: Seq<char> },
}

impl View for EasyEdaBoardShape {
    type V = EasyEdaBoardShapeView;

    open spec fn view(&self) -> EasyEdaBoardShapeView {
        match self {
            EasyEdaBoardShape::Track { width, cat, points } => EasyEdaBoardShapeView::Track {
                width: width@,
                cat: *cat,
                points: points@,
            },
            EasyEdaBoardShape::Circle { x, y, radius, width, cat } => EasyEdaBoardShapeView::Circle {
                x: x@,
                y: y@,
                radius: radius@,
                width: width@,
                cat: *cat,
            },
            EasyEdaBoardShape::Arc { width } => EasyEdaBoardShapeView::Arc { width: width@ },
        }
    }
}

/// What a board shape string gives: a `TRACK` of four fields or more not on
/// an other layer; a `CIRCLE` of six or more on a silkscreen or edge layer;
/// an `ARC` of six or more on the edge layer; else nothing.
pub open spec fn board_shape_spec(shape: Seq<char>) -> Option<EasyEdaBoardShapeView> {
    let parts = split_at_char(shape, '~');
    if parts.len() >= 4 && parts[0] == "TRACK"@ {
        let cat = easyeda_cat_spec(layer_id_of(parts[2]) as int);
        if cat == EasyEdaLayerCat::Other {
            None
        } else {
            Some(EasyEdaBoardShapeView::Track { width: parts[1], cat, points: parts[3] })
        }
    } else if parts.len() >= 6 && parts[0] == "CIRCLE"@ {
        let cat = easyeda_cat_spec(layer_id_of(parts[5]) as int);
        if cat == EasyEdaLayerCat::Edge || cat == EasyEdaLayerCat::SilkF || cat == EasyEdaLayerCat::SilkB {
            Some(EasyEdaBoardShapeView::Circle { x: parts[1], y: parts[2], radius: parts[3], width: parts[4], cat })
        } else {
            None
        }
    } else if parts.len() >= 6 && parts[0] == "ARC"@ && easyeda_cat_spec(layer_id_of(parts[2]) as int)
        == EasyEdaLayerCat::Edge {
        Some(EasyEdaBoardShapeView::Arc { width: parts[1] })
    } else {
        None
    }
}

pub open spec fn board_shape_view(o: Option<EasyEdaBoardShape>) -> Option<EasyEdaBoardShapeView> {
    match o {
        Some(b) => Some(b@),
        None => None,
    }
}

/// Reads one shape string of the board, as [`board_shape_spec`] states.
pub fn parse_shape(shape: &str) -> (res: Option<EasyEdaBoardShape>)
    ensures
        board_shape_view(res) == board_shape_spec(shape@),
{
    let parts = split_chars(&chars_of(shape), '~');
    let ghost pv = views_of(parts@);
    assert(pv == split_at_char(shape@, '~'));
    proof {
        reveal_strlit("TRACK");
        reveal_strlit("CIRCLE");
        reveal_strlit("ARC");
    }
    if parts.len() == 0 {
        return None;
    }
    if parts.len() >= 4 && eq_str(&parts[0], "TRACK") {
        let cat = categorize_easyeda_layer(layer_id(&parts[2]));
        if cat == EasyEdaLayerCat::Other {
            None
        } else {
            Some(EasyEdaBoardShape::Track {
                width: string_from_chars(&parts[1]),
                cat,
                points: string_from_chars(&parts[3]),
            })
        }
    } else if parts.len() >= 6 && eq_str(&parts[0], "CIRCLE") {
        let cat = categorize_easyeda_layer(layer_id(&parts[5]));
        if cat == EasyEdaLayerCat::Edge || cat == EasyEdaLayerCat::SilkF || cat == EasyEdaLayerCat::SilkB {
            Some(EasyEdaBoardShape::Circle {
                x: string_from_chars(&parts[1]),
                y: string_from_chars(&parts[2]),
                radius: string_from_chars(&parts[3]),
                width: string_from_chars(&parts[4]),
                cat,
            })
        } else {
            None
        }
    } else if parts.len() >= 6 && eq_str(&parts[0], "ARC") && categorize_easyeda_layer(layer_id(&parts[2]))
        == EasyEdaLayerCat::Edge {
        Some(EasyEdaBoardShape::Arc { width: string_from_chars(&parts[1]) })
    } else {
        None
    }
}

} // verus!
