//! What the geometry records of an Altium board become, in the file's own
//! units (1e-4 mil, y axis up): board-level silkscreen and fabrication
//! drawings, copper with its nets, per-component pads and drawings, and the
//! sides of the board outline.
//! Objects that belong to no component carry the component id 0xFFFF.
use vstd::prelude::*;

use super::records::{AltiumArc, AltiumComponent, AltiumPad, ComponentView, opt_view};
use super::{
    category_spec, prop_get, props_view, record_get, records_view, AltiumFill, AltiumNet, AltiumTrack, AltiumVia,
    LayerCategory, LayerMap, PropV, TextRecord,
};
use crate::text::{
    chars_of, decimal, decimal_chars, eq_str, parse_unsigned, parse_unsigned_exec, push_chars, to_string,
};

verus! {

/// The component id of objects that belong to no component.
pub const FREE_OBJECT: u16 = 0xFFFF;

/// A drawn shape in file units.
#[derive(Debug, Clone, Copy, PartialEq, Eq, Structural)]
pub enum AltiumShape {
    Segment { x1: i32, y1: i32, x2: i32, y2: i32, width: i32 },
    /// An arc about its centre; the angles are the bits of degrees held as
    /// 64-bit floats.
    Arc { cx: i32, cy: i32, radius: i32, start_angle: u64, end_angle: u64, width: i32 },
    Rect { x1: i32, y1: i32, x2: i32, y2: i32 },
}

pub open spec fn track_shape(t: AltiumTrack) -> AltiumShape {
    AltiumShape::Segment { x1: t.start_x, y1: t.start_y, x2: t.end_x, y2: t.end_y, width: t.width }
}

pub open spec fn arc_shape(a: AltiumArc) -> AltiumShape {
    AltiumShape::Arc {
        cx: a.center_x,
        cy: a.center_y,
        radius: a.radius,
        start_angle: a.start_angle,
        end_angle: a.end_angle,
        width: a.width,
    }
}

pub open spec fn fill_shape(f: AltiumFill) -> AltiumShape {
    AltiumShape::Rect { x1: f.x1, y1: f.y1, x2: f.x2, y2: f.y2 }
}

fn track_shape_exec(t: &AltiumTrack) -> (res: AltiumShape)
    ensures
        res == track_shape(*t),
{
    AltiumShape::Segment { x1: t.start_x, y1: t.start_y, x2: t.end_x, y2: t.end_y, width: t.width }
}

fn arc_shape_exec(a: &AltiumArc) -> (res: AltiumShape)
    ensures
        res == arc_shape(*a),
{
    AltiumShape::Arc {
        cx: a.center_x,
        cy: a.center_y,
        radius: a.radius,
        start_angle: a.start_angle,
        end_angle: a.end_angle,
        width: a.width,
    }
}

fn fill_shape_exec(f: &AltiumFill) -> (res: AltiumShape)
    ensures
        res == fill_shape(*f),
{
    AltiumShape::Rect { x1: f.x1, y1: f.y1, x2: f.x2, y2: f.y2 }
}

// ───────────────────────────── board drawings ─────────────────────────────

/// Board-level silkscreen and fabrication drawings by side.
#[derive(Debug, Clone)]
pub struct AltiumDrawings {
    pub silk_f: Vec<AltiumShape>,
    pub silk_b: Vec<AltiumShape>,
    pub fab_f: Vec<AltiumShape>,
    pub fab_b: Vec<AltiumShape>,
}

#[verifier::ext_equal]
pub struct AltiumDrawingsView {
    pub silk_f: Seq<AltiumShape>,
    pub silk_b: Seq<AltiumShape>,
    pub fab_f: Seq<AltiumShape>,
    pub fab_b: Seq<AltiumShape>,
}

impl View for AltiumDrawings {
    type V = AltiumDrawingsView;

    open spec fn view(&self) -> AltiumDrawingsView {
        AltiumDrawingsView { silk_f: self.silk_f@, silk_b: self.silk_b@, fab_f: self.fab_f@, fab_b: self.fab_b@ }
    }
}

/// `acc` with `s` added to the group of its layer category; other
/// categories keep no board drawings.
pub open spec fn file_shape(acc: AltiumDrawingsView, cat: LayerCategory, s: AltiumShape) -> AltiumDrawingsView {
    match cat {
        LayerCategory::SilkF => AltiumDrawingsView { silk_f: acc.silk_f.push(s), ..acc },
        LayerCategory::SilkB => AltiumDrawingsView { silk_b: acc.silk_b.push(s), ..acc },
        LayerCategory::FabF => AltiumDrawingsView { fab_f: acc.fab_f.push(s), ..acc },
        LayerCategory::FabB => AltiumDrawingsView { fab_b: acc.fab_b.push(s), ..acc },
        _ => acc,
    }
}

pub open spec fn free_tracks(acc: AltiumDrawingsView, ts: Seq<AltiumTrack>, m: LayerMap) -> AltiumDrawingsView
    decreases ts.len(),
{
    if ts.len() == 0 {
        acc
    } else {
        let prev = free_tracks(acc, ts.drop_last(), m);
        let t = ts.last();
        if t.component_id == FREE_OBJECT { file_shape(prev, category_spec(m, t.layer), track_shape(t)) } else { prev }
    }
}

pub open spec fn free_arcs(acc: AltiumDrawingsView, arcs: Seq<AltiumArc>, m: LayerMap) -> AltiumDrawingsView
    decreases arcs.len(),
{
    if arcs.len() == 0 {
        acc
    } else {
        let prev = free_arcs(acc, arcs.drop_last(), m);
        let a = arcs.last();
        if a.component_id == FREE_OBJECT { file_shape(prev, category_spec(m, a.layer), arc_shape(a)) } else { prev }
    }
}

pub open spec fn free_fills(acc: AltiumDrawingsView, fills: Seq<AltiumFill>, m: LayerMap) -> AltiumDrawingsView
    decreases fills.len(),
{
    if fills.len() == 0 {
        acc
    } else {
        let prev = free_fills(acc, fills.drop_last(), m);
        let f = fills.last();
        if f.component_id == FREE_OBJECT { file_shape(prev, category_spec(m, f.layer), fill_shape(f)) } else { prev }
    }
}

pub open spec fn no_shapes() -> AltiumDrawingsView {
    AltiumDrawingsView { silk_f: seq![], silk_b: seq![], fab_f: seq![], fab_b: seq![] }
}

/// The board-level drawings: the free tracks, then arcs, then fills, each
/// on the silkscreen or fabrication group of its layer.
pub open spec fn categorize_spec(
    tracks: Seq<AltiumTrack>,
    arcs: Seq<AltiumArc>,
    fills: Seq<AltiumFill>,
    m: LayerMap,
) -> AltiumDrawingsView {
    free_fills(free_arcs(free_tracks(no_shapes(), tracks, m), arcs, m), fills, m)
}

fn file_shape_exec(d: &mut AltiumDrawings, cat: LayerCategory, s: AltiumShape)
    ensures
        final(d)@ == file_shape(old(d)@, cat, s),
{
    match cat {
        LayerCategory::SilkF => d.silk_f.push(s),
        LayerCategory::SilkB => d.silk_b.push(s),
        LayerCategory::FabF => d.fab_f.push(s),
        LayerCategory::FabB => d.fab_b.push(s),
        _ => {},
    }
    assert(d@ =~= file_shape(old(d)@, cat, s));
}

/// Sorts the objects that belong to no component into silkscreen and
/// fabrication drawings by side.
pub fn categorize_drawings(
    tracks: &[AltiumTrack],
    arcs: &[AltiumArc],
    fills: &[AltiumFill],
    layer_map: &LayerMap,
) -> (res: AltiumDrawings)
    ensures
        res@ == categorize_spec(tracks@, arcs@, fills@, *layer_map),
{
    let mut d = AltiumDrawings { silk_f: Vec::new(), silk_b: Vec::new(), fab_f: Vec::new(), fab_b: Vec::new() };
    assert(d@ =~= no_shapes());
    let mut i: usize = 0;
    while i < tracks.len()
        invariant
            i <= tracks@.len(),
            d@ == free_tracks(no_shapes(), tracks@.take(i as int), *layer_map),
        decreases tracks@.len() - i,
    {
        assert(tracks@.take(i + 1).drop_last() =~= tracks@.take(i as int));
        let t = &tracks[i];
        if t.component_id == FREE_OBJECT {
            file_shape_exec(&mut d, layer_map.category(t.layer), track_shape_exec(t));
        }
        i += 1;
    }
    assert(tracks@.take(tracks@.len() as int) =~= tracks@);
    let ghost after_tracks = d@;
    let mut j: usize = 0;
    while j < arcs.len()
        invariant
            j <= arcs@.len(),
            d@ == free_arcs(after_tracks, arcs@.take(j as int), *layer_map),
        decreases arcs@.len() - j,
    {
        assert(arcs@.take(j + 1).drop_last() =~= arcs@.take(j as int));
        let a = &arcs[j];
        if a.component_id == FREE_OBJECT {
            file_shape_exec(&mut d, layer_map.category(a.layer), arc_shape_exec(a));
        }
        j += 1;
    }
    assert(arcs@.take(arcs@.len() as int) =~= arcs@);
    let ghost after_arcs = d@;
    let mut k: usize = 0;
    while k < fills.len()
        invariant
            k <= fills@.len(),
            d@ == free_fills(after_arcs, fills@.take(k as int), *layer_map),
        decreases fills@.len() - k,
    {
        assert(fills@.take(k + 1).drop_last() =~= fills@.take(k as int));
        let f = &fills[k];
        if f.component_id == FREE_OBJECT {
            file_shape_exec(&mut d, layer_map.category(f.layer), fill_shape_exec(f));
        }
        k += 1;
    }
    assert(fills@.take(fills@.len() as int) =~= fills@);
    d
}

// ───────────────────────────── copper ─────────────────────────────

/// The name of net `id`, when there is such a net and its name is not empty.
pub open spec fn net_name(nets: Seq<AltiumNet>, id: u16) -> Option<Seq<char>> {
    if id < nets.len() && nets[id as int].name@.len() > 0 {
        Some(nets[id as int].name@)
    } else {
        None
    }
}

pub fn net_name_exec(nets: &[AltiumNet], id: u16) -> (res: Option<String>)
    ensures
        opt_view(res) == net_name(nets@, id),
{
    let k = id as usize;
    if k < nets.len() && chars_of(nets[k].name.as_str()).len() > 0 {
        Some(nets[k].name.clone())
    } else {
        None
    }
}

/// Copper geometry in file units.
#[derive(Debug, Clone, Copy, PartialEq, Eq, Structural)]
pub enum CopperShape {
    Track(AltiumShape),
    /// A via: its copper diameter and its drill.
    Via { x: i32, y: i32, diameter: i32, drill: i32 },
}

/// A piece of copper and the net it belongs to.
#[derive(Debug, Clone)]
pub struct CopperItem {
    pub shape: CopperShape,
    pub net: Option<String>,
}

/// Copper on the top and bottom layers.
#[derive(Debug, Clone)]
pub struct AltiumCopper {
    pub front: Vec<CopperItem>,
    pub back: Vec<CopperItem>,
}

pub open spec fn items_view(v: Seq<CopperItem>) -> Seq<(CopperShape, Option<Seq<char>>)> {
    Seq::new(v.len(), |i: int| (v[i].shape, opt_view(v[i].net)))
}

#[verifier::ext_equal]
pub struct CopperView {
    pub front: Seq<(CopperShape, Option<Seq<char>>)>,
    pub back: Seq<(CopperShape, Option<Seq<char>>)>,
}

impl View for AltiumCopper {
    type V = CopperView;

    open spec fn view(&self) -> CopperView {
        CopperView { front: items_view(self.front@), back: items_view(self.back@) }
    }
}

/// `acc` with an item on the side of its copper layer; other layers carry
/// no tracks.
pub open spec fn file_copper(acc: CopperView, cat: LayerCategory, item: (CopperShape, Option<Seq<char>>)) -> CopperView {
    match cat {
        LayerCategory::CopperF => CopperView { front: acc.front.push(item), ..acc },
        LayerCategory::CopperB => CopperView { back: acc.back.push(item), ..acc },
        _ => acc,
    }
}

pub open spec fn copper_tracks(acc: CopperView, ts: Seq<AltiumTrack>, nets: Seq<AltiumNet>, m: LayerMap) -> CopperView
    decreases ts.len(),
{
    if ts.len() == 0 {
        acc
    } else {
        let prev = copper_tracks(acc, ts.drop_last(), nets, m);
        let t = ts.last();
        if t.component_id == FREE_OBJECT {
            file_copper(prev, category_spec(m, t.layer), (CopperShape::Track(track_shape(t)), net_name(nets, t.net_id)))
        } else {
            prev
        }
    }
}

pub open spec fn copper_arcs(acc: CopperView, arcs: Seq<AltiumArc>, nets: Seq<AltiumNet>, m: LayerMap) -> CopperView
    decreases arcs.len(),
{
    if arcs.len() == 0 {
        acc
    } else {
        let prev = copper_arcs(acc, arcs.drop_last(), nets, m);
        let a = arcs.last();
        if a.component_id == FREE_OBJECT {
            file_copper(prev, category_spec(m, a.layer), (CopperShape::Track(arc_shape(a)), net_name(nets, a.net_id)))
        } else {
            prev
        }
    }
}

pub open spec fn via_shape(v: AltiumVia) -> CopperShape {
    CopperShape::Via { x: v.x, y: v.y, diameter: v.diameter, drill: v.hole_size }
}

pub open spec fn copper_vias(acc: CopperView, vias: Seq<AltiumVia>, nets: Seq<AltiumNet>) -> CopperView
    decreases vias.len(),
{
    if vias.len() == 0 {
        acc
    } else {
        let prev = copper_vias(acc, vias.drop_last(), nets);
        let v = vias.last();
        let item = (via_shape(v), net_name(nets, v.net_id));
        CopperView { front: prev.front.push(item), back: prev.back.push(item) }
    }
}

/// The copper of a board: free tracks and arcs on the side of their copper
/// layer, then every via on both sides, each with its net.
pub open spec fn track_data_spec(
    tracks: Seq<AltiumTrack>,
    arcs: Seq<AltiumArc>,
    vias: Seq<AltiumVia>,
    nets: Seq<AltiumNet>,
    m: LayerMap,
) -> CopperView {
    copper_vias(
        copper_arcs(copper_tracks(CopperView { front: seq![], back: seq![] }, tracks, nets, m), arcs, nets, m),
        vias,
        nets,
    )
}

fn file_copper_exec(c: &mut AltiumCopper, cat: LayerCategory, item: CopperItem)
    ensures
        final(c)@ == file_copper(old(c)@, cat, (item.shape, opt_view(item.net))),
{
    let ghost iv = (item.shape, opt_view(item.net));
    let ghost before = c@;
    match cat {
        LayerCategory::CopperF => {
            c.front.push(item);
            assert(items_view(c.front@) =~= before.front.push(iv));
        },
        LayerCategory::CopperB => {
            c.back.push(item);
            assert(items_view(c.back@) =~= before.back.push(iv));
        },
        _ => {},
    }
    assert(c@ =~= file_copper(before, cat, iv));
}

/// Builds the copper of a board from its free tracks and arcs and its vias.
pub fn build_track_data(
    tracks: &[AltiumTrack],
    arcs: &[AltiumArc],
    vias: &[AltiumVia],
    nets: &[AltiumNet],
    layer_map: &LayerMap,
) -> (res: AltiumCopper)
    ensures
        res@ == track_data_spec(tracks@, arcs@, vias@, nets@, *layer_map),
{
    let mut c = AltiumCopper { front: Vec::new(), back: Vec::new() };
    assert(c@ =~= CopperView { front: seq![], back: seq![] });
    let ghost start = c@;
    let mut i: usize = 0;
    while i < tracks.len()
        invariant
            i <= tracks@.len(),
            c@ == copper_tracks(start, tracks@.take(i as int), nets@, *layer_map),
        decreases tracks@.len() - i,
    {
        assert(tracks@.take(i + 1).drop_last() =~= tracks@.take(i as int));
        let t = &tracks[i];
        if t.component_id == FREE_OBJECT {
            let item = CopperItem { shape: CopperShape::Track(track_shape_exec(t)), net: net_name_exec(nets, t.net_id) };
            file_copper_exec(&mut c, layer_map.category(t.layer), item);
        }
        i += 1;
    }
    assert(tracks@.take(tracks@.len() as int) =~= tracks@);
    let ghost after_tracks = c@;
    let mut j: usize = 0;
    while j < arcs.len()
        invariant
            j <= arcs@.len(),
            c@ == copper_arcs(after_tracks, arcs@.take(j as int), nets@, *layer_map),
        decreases arcs@.len() - j,
    {
        assert(arcs@.take(j + 1).drop_last() =~= arcs@.take(j as int));
        let a = &arcs[j];
        if a.component_id == FREE_OBJECT {
            let item = CopperItem { shape: CopperShape::Track(arc_shape_exec(a)), net: net_name_exec(nets, a.net_id) };
            file_copper_exec(&mut c, layer_map.category(a.layer), item);
        }
        j += 1;
    }
    assert(arcs@.take(arcs@.len() as int) =~= arcs@);
    let ghost after_arcs = c@;
    let mut k: usize = 0;
    while k < vias.len()
        invariant
            k <= vias@.len(),
            c@ == copper_vias(after_arcs, vias@.take(k as int), nets@),
        decreases vias@.len() - k,
    {
        assert(vias@.take(k + 1).drop_last() =~= vias@.take(k as int));
        let v = &vias[k];
        let shape = CopperShape::Via { x: v.x, y: v.y, diameter: v.diameter, drill: v.hole_size };
        let net = net_name_exec(nets, v.net_id);
        let ghost before = c@;
        let ghost iv = (shape, opt_view(net));
        c.front.push(CopperItem { shape, net: net.clone() });
        c.back.push(CopperItem { shape, net });
        assert(items_view(c.front@) =~= before.front.push(iv));
        assert(items_view(c.back@) =~= before.back.push(iv));
        k += 1;
    }
    assert(vias@.take(vias@.len() as int) =~= vias@);
    c
}

// ───────────────────────────── footprints ─────────────────────────────

/// The side letter of a layer: "B" for the bottom copper, silkscreen and
/// fabrication layers, "F" for every other.
pub open spec fn side_spec(m: LayerMap, id: u8) -> Seq<char> {
    match category_spec(m, id) {
        LayerCategory::CopperB | LayerCategory::SilkB | LayerCategory::FabB => "B"@,
        _ => "F"@,
    }
}

/// The footprint shape of a pad shape code.
pub open spec fn pad_shape_name(code: u8) -> Seq<char> {
    if code == 1 {
        "circle"@
    } else if code == 9 {
        "roundrect"@
    } else {
        "rect"@
    }
}

/// A pad of a component, in file units.
#[derive(Debug, Clone)]
pub struct AltiumPadPlan {
    pub x: i32,
    pub y: i32,
    pub size_x: i32,
    pub size_y: i32,
    pub shape: &'static str,
    pub through_hole: bool,
    /// The side of a single-layer pad; none for a pad on both sides (a
    /// through-hole pad or one on the multi-layer, id 74).
    pub side: Option<&'static str>,
    pub net: Option<String>,
    /// Whether the pad is pin 1 (named "1" or "A1").
    pub pin1: bool,
    /// The hole of a through-hole pad.
    pub drill: Option<i32>,
    /// Bits of the rotation in degrees (a 64-bit float).
    pub rotation: u64,
}

pub struct AltiumPadPlanView {
    pub x: i32,
    pub y: i32,
    pub size_x: i32,
    pub size_y: i32,
    pub shape: Seq<char>,
    pub through_hole: bool,
    pub side: Option<Seq<char>>,
    pub net: Option<Seq<char>>,
    pub pin1: bool,
    pub drill: Option<i32>,
    pub rotation: u64,
}

pub open spec fn str_opt_view(o: Option<&'static str>) -> Option<Seq<char>> {
    match o {
        Some(s) => Some(s@),
        None => None,
    }
}

impl View for AltiumPadPlan {
    type V = AltiumPadPlanView;

    open spec fn view(&self) -> AltiumPadPlanView {
        AltiumPadPlanView {
            x: self.x,
            y: self.y,
            size_x: self.size_x,
            size_y: self.size_y,
            shape: self.shape@,
            through_hole: self.through_hole,
            side: str_opt_view(self.side),
            net: opt_view(self.net),
            pin1: self.pin1,
            drill: self.drill,
            rotation: self.rotation,
        }
    }
}

/// What a pad record becomes.
pub open spec fn pad_plan(p: AltiumPad, nets: Seq<AltiumNet>, m: LayerMap) -> AltiumPadPlanView {
    let th = p.hole_size > 0;
    AltiumPadPlanView {
        x: p.x,
        y: p.y,
        size_x: p.size_x,
        size_y: p.size_y,
        shape: pad_shape_name(p.shape),
        through_hole: th,
        side: if p.layer == 74 || th { None } else { Some(side_spec(m, p.layer)) },
        net: net_name(nets, p.net_id),
        pin1: p.name@ == "1"@ || p.name@ == "A1"@,
        drill: if th { Some(p.hole_size) } else { None },
        rotation: p.rotation,
    }
}

/// A drawing of a component on the silkscreen or fabrication layer of a side.
#[derive(Debug, Clone)]
pub struct AltiumDrawingPlan {
    pub side: &'static str,
    pub shape: AltiumShape,
}

pub open spec fn drawing_plans_view(v: Seq<AltiumDrawingPlan>) -> Seq<(Seq<char>, AltiumShape)> {
    Seq::new(v.len(), |i: int| (v[i].side@, v[i].shape))
}

pub open spec fn pad_plans_view(v: Seq<AltiumPadPlan>) -> Seq<AltiumPadPlanView> {
    Seq::new(v.len(), |i: int| v[i]@)
}

/// The side a component drawing shows on, when its layer is silkscreen or
/// fabrication.
pub open spec fn drawing_side(m: LayerMap, id: u8) -> Option<Seq<char>> {
    match category_spec(m, id) {
        LayerCategory::SilkF | LayerCategory::FabF => Some("F"@),
        LayerCategory::SilkB | LayerCategory::FabB => Some("B"@),
        _ => None,
    }
}

pub open spec fn shown(m: LayerMap, id: u8, s: AltiumShape) -> Seq<(Seq<char>, AltiumShape)> {
    match drawing_side(m, id) {
        Some(side) => seq![(side, s)],
        None => seq![],
    }
}

pub open spec fn comp_pads(ps: Seq<AltiumPad>, id: u16, nets: Seq<AltiumNet>, m: LayerMap) -> Seq<AltiumPadPlanView>
    decreases ps.len(),
{
    if ps.len() == 0 {
        seq![]
    } else {
        let prev = comp_pads(ps.drop_last(), id, nets, m);
        if ps.last().component_id == id { prev.push(pad_plan(ps.last(), nets, m)) } else { prev }
    }
}

pub open spec fn comp_tracks(ts: Seq<AltiumTrack>, id: u16, m: LayerMap) -> Seq<(Seq<char>, AltiumShape)>
    decreases ts.len(),
{
    if ts.len() == 0 {
        seq![]
    } else {
        let prev = comp_tracks(ts.drop_last(), id, m);
        let t = ts.last();
        if t.component_id == id { prev + shown(m, t.layer, track_shape(t)) } else { prev }
    }
}

pub open spec fn comp_arcs(arcs: Seq<AltiumArc>, id: u16, m: LayerMap) -> Seq<(Seq<char>, AltiumShape)>
    decreases arcs.len(),
{
    if arcs.len() == 0 {
        seq![]
    } else {
        let prev = comp_arcs(arcs.drop_last(), id, m);
        let a = arcs.last();
        if a.component_id == id { prev + shown(m, a.layer, arc_shape(a)) } else { prev }
    }
}

pub open spec fn comp_fills(fills: Seq<AltiumFill>, id: u16, m: LayerMap) -> Seq<(Seq<char>, AltiumShape)>
    decreases fills.len(),
{
    if fills.len() == 0 {
        seq![]
    } else {
        let prev = comp_fills(fills.drop_last(), id, m);
        let f = fills.last();
        if f.component_id == id { prev + shown(m, f.layer, fill_shape(f)) } else { prev }
    }
}

/// A component with its pads and drawings, in file units; its position and
/// rotation are the text of its record.
#[derive(Debug, Clone)]
pub struct AltiumFootprintPlan {
    pub designator: String,
    pub x: Option<String>,
    pub y: Option<String>,
    pub rotation: Option<String>,
    pub side: &'static str,
    pub pads: Vec<AltiumPadPlan>,
    pub drawings: Vec<AltiumDrawingPlan>,
}

pub struct AltiumFootprintView {
    pub designator: Seq<char>,
    pub x: Option<Seq<char>>,
    pub y: Option<Seq<char>>,
    pub rotation: Option<Seq<char>>,
    pub side: Seq<char>,
    pub pads: Seq<AltiumPadPlanView>,
    pub drawings: Seq<(Seq<char>, AltiumShape)>,
}

impl View for AltiumFootprintPlan {
    type V = AltiumFootprintView;

    open spec fn view(&self) -> AltiumFootprintView {
        AltiumFootprintView {
            designator: self.designator@,
            x: opt_view(self.x),
            y: opt_view(self.y),
            rotation: opt_view(self.rotation),
            side: self.side@,
            pads: pad_plans_view(self.pads@),
            drawings: drawing_plans_view(self.drawings@),
        }
    }
}

/// What the component at index `i` becomes: the objects whose component id
/// is `i` (taken modulo 65536, as the 16-bit id field holds it) are its pads,
/// and its tracks, arcs and fills on silkscreen or fabrication layers are its
/// drawings, in that order.
pub open spec fn footprint_spec(
    i: int,
    c: ComponentView,
    pads: Seq<AltiumPad>,
    tracks: Seq<AltiumTrack>,
    arcs: Seq<AltiumArc>,
    fills: Seq<AltiumFill>,
    nets: Seq<AltiumNet>,
    m: LayerMap,
) -> AltiumFootprintView {
    let id = (i % 65536) as u16;
    AltiumFootprintView {
        designator: c.designator,
        x: c.x,
        y: c.y,
        rotation: c.rotation,
        side: side_spec(m, c.layer),
        pads: comp_pads(pads, id, nets, m),
        drawings: comp_tracks(tracks, id, m) + comp_arcs(arcs, id, m) + comp_fills(fills, id, m),
    }
}

fn pad_plan_exec(p: &AltiumPad, nets: &[AltiumNet], m: &LayerMap) -> (res: AltiumPadPlan)
    ensures
        res@ == pad_plan(*p, nets@, *m),
{
    let th = p.hole_size > 0;
    let shape = if p.shape == 1 {
        "circle"
    } else if p.shape == 9 {
        "roundrect"
    } else {
        "rect"
    };
    let name = chars_of(p.name.as_str());
    AltiumPadPlan {
        x: p.x,
        y: p.y,
        size_x: p.size_x,
        size_y: p.size_y,
        shape,
        through_hole: th,
        side: if p.layer == 74 || th { None } else { Some(m.side(p.layer)) },
        net: net_name_exec(nets, p.net_id),
        pin1: eq_str(&name, "1") || eq_str(&name, "A1"),
        drill: if th { Some(p.hole_size) } else { None },
        rotation: p.rotation,
    }
}

fn drawing_side_exec(m: &LayerMap, id: u8) -> (res: Option<&'static str>)
    ensures
        str_opt_view(res) == drawing_side(*m, id),
{
    match m.category(id) {
        LayerCategory::SilkF | LayerCategory::FabF => Some("F"),
        LayerCategory::SilkB | LayerCategory::FabB => Some("B"),
        _ => None,
    }
}

fn push_shown(out: &mut Vec<AltiumDrawingPlan>, m: &LayerMap, id: u8, s: AltiumShape)
    ensures
        drawing_plans_view(final(out)@) == drawing_plans_view(old(out)@) + shown(*m, id, s),
{
    let ghost before = drawing_plans_view(out@);
    match drawing_side_exec(m, id) {
        Some(side) => {
            out.push(AltiumDrawingPlan { side, shape: s });
            assert(drawing_plans_view(out@) =~= before + shown(*m, id, s));
        },
        None => {
            assert(drawing_plans_view(out@) =~= before + shown(*m, id, s));
        },
    }
}

/// Builds the footprint of the component at `index`.
pub fn build_footprint(
    index: usize,
    comp: &AltiumComponent,
    pads: &[AltiumPad],
    tracks: &[AltiumTrack],
    arcs: &[AltiumArc],
    fills: &[AltiumFill],
    nets: &[AltiumNet],
    layer_map: &LayerMap,
) -> (res: AltiumFootprintPlan)
    ensures
        res@ == footprint_spec(index as int, comp@, pads@, tracks@, arcs@, fills@, nets@, *layer_map),
{
    let id: u16 = (index % 65536) as u16;
    let mut fp_pads: Vec<AltiumPadPlan> = Vec::new();
    let mut i: usize = 0;
    assert(pad_plans_view(fp_pads@) =~= comp_pads(pads@.take(0), id, nets@, *layer_map));
    while i < pads.len()
        invariant
            i <= pads@.len(),
            pad_plans_view(fp_pads@) == comp_pads(pads@.take(i as int), id, nets@, *layer_map),
        decreases pads@.len() - i,
    {
        assert(pads@.take(i + 1).drop_last() =~= pads@.take(i as int));
        if pads[i].component_id == id {
            let ghost before = pad_plans_view(fp_pads@);
            let plan = pad_plan_exec(&pads[i], nets, layer_map);
            let ghost pv = plan@;
            fp_pads.push(plan);
            assert(pad_plans_view(fp_pads@) =~= before.push(pv));
        }
        i += 1;
    }
    assert(pads@.take(pads@.len() as int) =~= pads@);
    let mut drawings: Vec<AltiumDrawingPlan> = Vec::new();
    let mut j: usize = 0;
    assert(drawing_plans_view(drawings@) =~= comp_tracks(tracks@.take(0), id, *layer_map));
    while j < tracks.len()
        invariant
            j <= tracks@.len(),
            drawing_plans_view(drawings@) == comp_tracks(tracks@.take(j as int), id, *layer_map),
        decreases tracks@.len() - j,
    {
        assert(tracks@.take(j + 1).drop_last() =~= tracks@.take(j as int));
        let t = &tracks[j];
        if t.component_id == id {
            push_shown(&mut drawings, layer_map, t.layer, track_shape_exec(t));
        }
        j += 1;
    }
    assert(tracks@.take(tracks@.len() as int) =~= tracks@);
    let ghost after_tracks = drawing_plans_view(drawings@);
    let mut k: usize = 0;
    assert(after_tracks + comp_arcs(arcs@.take(0), id, *layer_map) =~= after_tracks);
    while k < arcs.len()
        invariant
            k <= arcs@.len(),
            drawing_plans_view(drawings@) == after_tracks + comp_arcs(arcs@.take(k as int), id, *layer_map),
        decreases arcs@.len() - k,
    {
        assert(arcs@.take(k + 1).drop_last() =~= arcs@.take(k as int));
        let a = &arcs[k];
        if a.component_id == id {
            push_shown(&mut drawings, layer_map, a.layer, arc_shape_exec(a));
            assert(drawing_plans_view(drawings@) =~= after_tracks + comp_arcs(arcs@.take(k + 1), id, *layer_map));
        }
        k += 1;
    }
    assert(arcs@.take(arcs@.len() as int) =~= arcs@);
    let ghost after_arcs = drawing_plans_view(drawings@);
    let mut n: usize = 0;
    assert(after_arcs + comp_fills(fills@.take(0), id, *layer_map) =~= after_arcs);
    while n < fills.len()
        invariant
            n <= fills@.len(),
            drawing_plans_view(drawings@) == after_arcs + comp_fills(fills@.take(n as int), id, *layer_map),
        decreases fills@.len() - n,
    {
        assert(fills@.take(n + 1).drop_last() =~= fills@.take(n as int));
        let f = &fills[n];
        if f.component_id == id {
            push_shown(&mut drawings, layer_map, f.layer, fill_shape_exec(f));
            assert(drawing_plans_view(drawings@) =~= after_arcs + comp_fills(fills@.take(n + 1), id, *layer_map));
        }
        n += 1;
    }
    assert(fills@.take(fills@.len() as int) =~= fills@);
    AltiumFootprintPlan {
        designator: comp.designator.clone(),
        x: comp.x.clone(),
        y: comp.y.clone(),
        rotation: comp.rotation.clone(),
        side: layer_map.side(comp.layer),
        pads: fp_pads,
        drawings,
    }
}

pub open spec fn footprints_view(v: Seq<AltiumFootprintPlan>) -> Seq<AltiumFootprintView> {
    Seq::new(v.len(), |i: int| v[i]@)
}

/// Builds the footprint of every component, in order.
pub fn build_footprints(
    components: &[AltiumComponent],
    pads: &[AltiumPad],
    tracks: &[AltiumTrack],
    arcs: &[AltiumArc],
    fills: &[AltiumFill],
    nets: &[AltiumNet],
    layer_map: &LayerMap,
) -> (res: Vec<AltiumFootprintPlan>)
    ensures
        footprints_view(res@) == Seq::new(
            components@.len(),
            |i: int| footprint_spec(i, components@[i]@, pads@, tracks@, arcs@, fills@, nets@, *layer_map),
        ),
{
    let mut out: Vec<AltiumFootprintPlan> = Vec::new();
    let mut i: usize = 0;
    while i < components.len()
        invariant
            i <= components@.len(),
            footprints_view(out@) =~= Seq::new(
                i as nat,
                |k: int| footprint_spec(k, components@[k]@, pads@, tracks@, arcs@, fills@, nets@, *layer_map),
            ),
        decreases components@.len() - i,
    {
        let ghost before = footprints_view(out@);
        let f = build_footprint(i, &components[i], pads, tracks, arcs, fills, nets, layer_map);
        let ghost fv = f@;
        out.push(f);
        assert(footprints_view(out@) =~= before.push(fv));
        i += 1;
    }
    out
}

// ───────────────────────────── board outline ─────────────────────────────

/// One side of the board outline: its two corners as the record's
/// coordinate text (`VX{i}`, `VY{i}` and those of the next vertex).
#[derive(Debug, Clone, PartialEq)]
pub struct EdgeSegment {
    pub x0: Option<String>,
    pub y0: Option<String>,
    pub x1: Option<String>,
    pub y1: Option<String>,
}

pub struct EdgeView {
    pub x0: Option<Seq<char>>,
    pub y0: Option<Seq<char>>,
    pub x1: Option<Seq<char>>,
    pub y1: Option<Seq<char>>,
}

impl View for EdgeSegment {
    type V = EdgeView;

    open spec fn view(&self) -> EdgeView {
        EdgeView { x0: opt_view(self.x0), y0: opt_view(self.y0), x1: opt_view(self.x1), y1: opt_view(self.y1) }
    }
}

/// The vertex count of an outline record: its `VCOUNT` read as a number, or
/// none.
pub open spec fn vertex_count(r: Seq<PropV>) -> nat {
    match prop_get(r, "VCOUNT"@) {
        Some(v) => match parse_unsigned(v, usize::MAX as int) {
            Some(n) => n,
            None => 0,
        },
        None => 0,
    }
}

/// Side `i` of an outline with `n` vertices: from vertex `i` to the next,
/// the last one closing the outline back to the first.
pub open spec fn edge_of(r: Seq<PropV>, i: nat, n: nat) -> EdgeView {
    let j = (i + 1) % n;
    EdgeView {
        x0: prop_get(r, "VX"@ + decimal(i)),
        y0: prop_get(r, "VY"@ + decimal(i)),
        x1: prop_get(r, "VX"@ + decimal(j as nat)),
        y1: prop_get(r, "VY"@ + decimal(j as nat)),
    }
}

/// The sides of the outline records (those of `KIND` 0), record by record.
pub open spec fn board_edges_spec(rs: Seq<Seq<PropV>>) -> Seq<EdgeView>
    decreases rs.len(),
{
    if rs.len() == 0 {
        seq![]
    } else {
        let r = rs.last();
        let n = vertex_count(r);
        board_edges_spec(rs.drop_last()) + if prop_get(r, "KIND"@) == Some("0"@) {
            Seq::new(n, |i: int| edge_of(r, i as nat, n))
        } else {
            seq![]
        }
    }
}

pub open spec fn edges_view(v: Seq<EdgeSegment>) -> Seq<EdgeView> {
    Seq::new(v.len(), |i: int| v[i]@)
}

fn indexed_key(prefix: &str, i: usize) -> (res: String)
    ensures
        res@ == prefix@ + decimal(i as nat),
{
    let mut s = to_string(prefix);
    push_chars(&mut s, &decimal_chars(i as u64));
    s
}

fn get_cloned(record: &TextRecord, key: &str) -> (res: Option<String>)
    ensures
        opt_view(res) == prop_get(props_view(record@), key@),
{
    match record_get(record, key) {
        Some(v) => Some(v.clone()),
        None => None,
    }
}

/// The sides of the board outline, as the coordinate text of their corners.
pub fn extract_board_edges(board_records: &[TextRecord]) -> (res: Vec<EdgeSegment>)
    ensures
        edges_view(res@) == board_edges_spec(records_view(board_records@)),
{
    let mut edges: Vec<EdgeSegment> = Vec::new();
    let mut k: usize = 0;
    assert(records_view(board_records@).take(0) =~= Seq::<Seq<PropV>>::empty());
    assert(edges_view(edges@) =~= Seq::<EdgeView>::empty());
    while k < board_records.len()
        invariant
            k <= board_records@.len(),
            edges_view(edges@) == board_edges_spec(records_view(board_records@).take(k as int)),
        decreases board_records@.len() - k,
    {
        let record = &board_records[k];
        let ghost rv = props_view(record@);
        assert(records_view(board_records@).take(k + 1).drop_last() =~= records_view(board_records@).take(k as int));
        assert(records_view(board_records@).take(k + 1).last() == rv);
        let ghost before = edges_view(edges@);
        let kind = match record_get(record, "KIND") {
            Some(v) => eq_str(&chars_of(v.as_str()), "0"),
            None => false,
        };
        if kind {
            let vcount: usize = match record_get(record, "VCOUNT") {
                Some(v) => match parse_unsigned_exec(&chars_of(v.as_str()), usize::MAX as u64) {
                    Some(n) => n as usize,
                    None => 0,
                },
                None => 0,
            };
            assert(vcount == vertex_count(rv));
            let mut i: usize = 0;
            while i < vcount
                invariant
                    i <= vcount,
                    vcount == vertex_count(rv),
                    rv == props_view(record@),
                    edges_view(edges@) == before + Seq::new(i as nat, |t: int| edge_of(rv, t as nat, vcount as nat)),
                decreases vcount - i,
            {
                let next = (i + 1) % vcount;
                let seg = EdgeSegment {
                    x0: get_cloned(record, indexed_key("VX", i).as_str()),
                    y0: get_cloned(record, indexed_key("VY", i).as_str()),
                    x1: get_cloned(record, indexed_key("VX", next).as_str()),
                    y1: get_cloned(record, indexed_key("VY", next).as_str()),
                };
                let ghost sv = seg@;
                assert(sv == edge_of(rv, i as nat, vcount as nat));
                let ghost prev = edges_view(edges@);
                edges.push(seg);
                assert(edges_view(edges@) =~= prev.push(sv));
                assert(edges_view(edges@) =~= before + Seq::new((i + 1) as nat, |t: int| edge_of(rv, t as nat, vcount as nat)));
                i += 1;
            }
        } else {
            assert(edges_view(edges@) =~= before + Seq::<EdgeView>::empty());
        }
        k += 1;
    }
    assert(records_view(board_records@).take(board_records@.len() as int) =~= records_view(board_records@));
    edges
}

} // verus!
