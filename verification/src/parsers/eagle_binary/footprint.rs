//! What each placed component of an Eagle binary board becomes: its package,
//! side, pads and silkscreen/fabrication drawings, still in the package's
//! own coordinates (file units). Turning and moving them onto the board is
//! left to the caller.
use vstd::prelude::*;

use crate::text::{chars_of, eq_str};
use super::{
    layer_cat_spec, layer_side_spec, mirror_layer_spec, categorize_layer, layer_side, mirror_eagle_layer, mirror_layer_side,
    LayerCat,
};
use super::board::{
    lib_view, libs_view, BinCircle, BinPackage, BinPad, BinPlacement, BinRect, BinSmd, BinWire, BoardDrawing, PackageView,
    PadView, PlacementView, SmdView,
};

verus! {

/// The package a placement uses: library `lib_idx` and package `pkg_idx`,
/// both counted from 1; none when either is out of range.
pub open spec fn package_at(packages: Seq<Seq<PackageView>>, lib_idx: u16, pkg_idx: u16) -> Option<PackageView> {
    if 1 <= lib_idx <= packages.len() && 1 <= pkg_idx <= packages[lib_idx - 1].len() {
        Some(packages[lib_idx - 1][pkg_idx - 1])
    } else {
        None
    }
}

/// Looks up a placement's package by its 1-based indices.
pub fn lookup_package(packages: &[Vec<BinPackage>], lib_idx: u16, pkg_idx: u16) -> (res: Option<&BinPackage>)
    ensures
        package_at(libs_view(packages@), lib_idx, pkg_idx) matches Some(p) ==> (res matches Some(q) && q@ == p),
        package_at(libs_view(packages@), lib_idx, pkg_idx) is None ==> res is None,
{
    let l = lib_idx as usize;
    let k = pkg_idx as usize;
    if l >= 1 && l <= packages.len() {
        let lib = &packages[l - 1];
        if k >= 1 && k <= lib.len() {
            assert(libs_view(packages@)[l - 1] == lib_view(lib@));
            return Some(&lib[k - 1]);
        }
    }
    None
}

/// Shape of a footprint pad.
#[derive(Debug, Clone, Copy, PartialEq, Eq, Structural)]
pub enum PadShape {
    Rect,
    Oval,
    Circle,
    RoundRect,
}

/// A pad of a placed component, in package coordinates.
#[derive(Debug, Clone)]
pub struct PadPlan {
    pub x: i32,
    pub y: i32,
    pub width: i64,
    pub height: i64,
    pub shape: PadShape,
    /// The copper side of an SMD pad; a through-hole pad is on both.
    pub side: Option<&'static str>,
    /// Whether the pad is pin 1 (named "1" or "A1").
    pub pin1: bool,
    /// The drill of a through-hole pad.
    pub drill: Option<i32>,
    /// Corner rounding of an SMD pad, in percent of its smaller side.
    pub roundness: u8,
}

pub struct PadPlanView {
    pub x: i32,
    pub y: i32,
    pub width: i64,
    pub height: i64,
    pub shape: PadShape,
    pub side: Option<Seq<char>>,
    pub pin1: bool,
    pub drill: Option<i32>,
    pub roundness: u8,
}

impl View for PadPlan {
    type V = PadPlanView;

    open spec fn view(&self) -> PadPlanView {
        PadPlanView {
            x: self.x,
            y: self.y,
            width: self.width,
            height: self.height,
            shape: self.shape,
            side: match self.side {
                Some(s) => Some(s@),
                None => None,
            },
            pin1: self.pin1,
            drill: self.drill,
            roundness: self.roundness,
        }
    }
}

/// A drawing of a placed component on the silkscreen or fabrication layer
/// of one side, in package coordinates.
#[derive(Debug, Clone)]
pub struct DrawingPlan {
    pub side: &'static str,
    pub shape: BoardDrawing,
}

pub struct DrawingPlanView {
    pub side: Seq<char>,
    pub shape: BoardDrawing,
}

impl View for DrawingPlan {
    type V = DrawingPlanView;

    open spec fn view(&self) -> DrawingPlanView {
        DrawingPlanView { side: self.side@, shape: self.shape }
    }
}

/// A placed component: where it goes, on which side, and what it carries.
#[derive(Debug, Clone)]
pub struct FootprintPlan {
    pub name: String,
    pub value: String,
    pub x: i32,
    pub y: i32,
    /// Rotation in 4096ths of a full turn.
    pub angle: u16,
    pub mirrored: bool,
    /// "B" for a mirrored component, else "F".
    pub side: &'static str,
    pub pads: Vec<PadPlan>,
    pub drawings: Vec<DrawingPlan>,
}

pub struct FootprintPlanView {
    pub name: Seq<char>,
    pub value: Seq<char>,
    pub x: i32,
    pub y: i32,
    pub angle: u16,
    pub mirrored: bool,
    pub side: Seq<char>,
    pub pads: Seq<PadPlanView>,
    pub drawings: Seq<DrawingPlanView>,
}

pub open spec fn pads_view(v: Seq<PadPlan>) -> Seq<PadPlanView> {
    Seq::new(v.len(), |i: int| v[i]@)
}

pub open spec fn drawings_view(v: Seq<DrawingPlan>) -> Seq<DrawingPlanView> {
    Seq::new(v.len(), |i: int| v[i]@)
}

impl View for FootprintPlan {
    type V = FootprintPlanView;

    open spec fn view(&self) -> FootprintPlanView {
        FootprintPlanView {
            name: self.name@,
            value: self.value@,
            x: self.x,
            y: self.y,
            angle: self.angle,
            mirrored: self.mirrored,
            side: self.side@,
            pads: pads_view(self.pads@),
            drawings: drawings_view(self.drawings@),
        }
    }
}

pub open spec fn is_pin1(name: Seq<char>) -> bool {
    name == "1"@ || name == "A1"@
}

/// Footprint shape of a through-hole pad shape.
pub open spec fn th_shape(shape: Seq<char>) -> PadShape {
    if shape == "square"@ || shape == "octagon"@ {
        PadShape::Rect
    } else if shape == "long"@ {
        PadShape::Oval
    } else {
        PadShape::Circle
    }
}

/// A through-hole pad: round copper of its diameter (twice its drill when
/// it has none) on both sides.
pub open spec fn th_plan(p: PadView) -> PadPlanView {
    let d: int = if p.diameter > 0 { p.diameter as int } else { p.drill * 2 };
    PadPlanView {
        x: p.x,
        y: p.y,
        width: d as i64,
        height: d as i64,
        shape: th_shape(p.shape),
        side: None,
        pin1: is_pin1(p.name),
        drill: Some(p.drill),
        roundness: 0,
    }
}

/// The copper side of an SMD layer; a mirrored component's copper swaps.
pub open spec fn smd_side(layer: u8, mirrored: bool) -> Seq<char> {
    if mirrored && layer == 1 {
        "B"@
    } else if mirrored && layer == 16 {
        "F"@
    } else {
        layer_side_spec(layer as int)
    }
}

/// An SMD pad: a rectangle, rounded when it has a roundness.
pub open spec fn smd_plan(s: SmdView, mirrored: bool) -> PadPlanView {
    PadPlanView {
        x: s.x,
        y: s.y,
        width: s.dx as i64,
        height: s.dy as i64,
        shape: if s.roundness > 0 { PadShape::RoundRect } else { PadShape::Rect },
        side: Some(smd_side(s.layer, mirrored)),
        pin1: is_pin1(s.name),
        drill: None,
        roundness: s.roundness,
    }
}

/// The side a package drawing on `layer` is shown on: silkscreen and
/// fabrication layers, taken on the other side when the component is
/// mirrored; none for other layers.
pub open spec fn drawing_side(layer: u8, mirrored: bool) -> Option<Seq<char>> {
    let eff = if mirrored { mirror_layer_spec(layer as int) } else { layer as int };
    match layer_cat_spec(eff) {
        LayerCat::SilkF | LayerCat::FabF => Some("F"@),
        LayerCat::SilkB | LayerCat::FabB => Some("B"@),
        _ => None,
    }
}

pub open spec fn th_plans(ps: Seq<PadView>) -> Seq<PadPlanView> {
    Seq::new(ps.len(), |i: int| th_plan(ps[i]))
}

pub open spec fn smd_plans(ss: Seq<SmdView>, mirrored: bool) -> Seq<PadPlanView> {
    Seq::new(ss.len(), |i: int| smd_plan(ss[i], mirrored))
}

/// A drawing that is shown, or nothing.
pub open spec fn shown(layer: u8, mirrored: bool, d: BoardDrawing) -> Seq<DrawingPlanView> {
    match drawing_side(layer, mirrored) {
        Some(side) => seq![DrawingPlanView { side, shape: d }],
        None => seq![],
    }
}

pub open spec fn wire_plans(ws: Seq<BinWire>, mirrored: bool) -> Seq<DrawingPlanView>
    decreases ws.len(),
{
    if ws.len() == 0 {
        seq![]
    } else {
        let w = ws.last();
        wire_plans(ws.drop_last(), mirrored) + shown(
            w.layer,
            mirrored,
            BoardDrawing::Segment { x1: w.x1, y1: w.y1, x2: w.x2, y2: w.y2, width: w.width },
        )
    }
}

pub open spec fn circle_plans(cs: Seq<BinCircle>, mirrored: bool) -> Seq<DrawingPlanView>
    decreases cs.len(),
{
    if cs.len() == 0 {
        seq![]
    } else {
        let c = cs.last();
        circle_plans(cs.drop_last(), mirrored) + shown(
            c.layer,
            mirrored,
            BoardDrawing::Circle { x: c.x, y: c.y, radius: c.radius, width: c.width },
        )
    }
}

pub open spec fn rect_plans(rs: Seq<BinRect>, mirrored: bool) -> Seq<DrawingPlanView>
    decreases rs.len(),
{
    if rs.len() == 0 {
        seq![]
    } else {
        let r = rs.last();
        rect_plans(rs.drop_last(), mirrored) + shown(
            r.layer,
            mirrored,
            BoardDrawing::Rect { x1: r.x1, y1: r.y1, x2: r.x2, y2: r.y2 },
        )
    }
}

/// What a placement becomes: its through-hole pads then its SMD pads, and
/// its shown lines, circles and rectangles in that order; a placement whose
/// package cannot be found carries nothing.
pub open spec fn plan_spec(packages: Seq<Seq<PackageView>>, p: PlacementView) -> FootprintPlanView {
    let (pads, drawings) = match package_at(packages, p.lib_idx, p.pkg_idx) {
        Some(pkg) => (
            th_plans(pkg.pads) + smd_plans(pkg.smds, p.mirrored),
            wire_plans(pkg.wires, p.mirrored) + circle_plans(pkg.circles, p.mirrored) + rect_plans(pkg.rects, p.mirrored),
        ),
        None => (seq![], seq![]),
    };
    FootprintPlanView {
        name: p.name,
        value: p.value,
        x: p.x,
        y: p.y,
        angle: p.angle,
        mirrored: p.mirrored,
        side: if p.mirrored { "B"@ } else { "F"@ },
        pads,
        drawings,
    }
}

fn is_pin1_exec(name: &str) -> (res: bool)
    ensures
        res == is_pin1(name@),
{
    let cs = chars_of(name);
    eq_str(&cs, "1") || eq_str(&cs, "A1")
}

fn th_pad(p: &BinPad) -> (res: PadPlan)
    ensures
        res@ == th_plan(p@),
{
    let d: i64 = if p.diameter > 0 { p.diameter as i64 } else { p.drill as i64 * 2 };
    let cs = chars_of(p.shape);
    let shape = if eq_str(&cs, "square") || eq_str(&cs, "octagon") {
        PadShape::Rect
    } else if eq_str(&cs, "long") {
        PadShape::Oval
    } else {
        PadShape::Circle
    };
    PadPlan {
        x: p.x,
        y: p.y,
        width: d,
        height: d,
        shape,
        side: None,
        pin1: is_pin1_exec(p.name.as_str()),
        drill: Some(p.drill),
        roundness: 0,
    }
}

fn smd_pad(s: &BinSmd, mirrored: bool) -> (res: PadPlan)
    ensures
        res@ == smd_plan(s@, mirrored),
{
    let side = if mirrored { mirror_layer_side(s.layer) } else { layer_side(s.layer) };
    PadPlan {
        x: s.x,
        y: s.y,
        width: s.dx as i64,
        height: s.dy as i64,
        shape: if s.roundness > 0 { PadShape::RoundRect } else { PadShape::Rect },
        side: Some(side),
        pin1: is_pin1_exec(s.name.as_str()),
        drill: None,
        roundness: s.roundness,
    }
}

fn drawing_side_exec(layer: u8, mirrored: bool) -> (res: Option<&'static str>)
    ensures
        res matches Some(s) ==> drawing_side(layer, mirrored) == Some(s@),
        res is None ==> drawing_side(layer, mirrored) is None,
{
    let eff = if mirrored { mirror_eagle_layer(layer) } else { layer };
    match categorize_layer(eff) {
        LayerCat::SilkF | LayerCat::FabF => Some("F"),
        LayerCat::SilkB | LayerCat::FabB => Some("B"),
        _ => None,
    }
}

/// Appends `d` when its layer is shown.
fn push_shown(out: &mut Vec<DrawingPlan>, layer: u8, mirrored: bool, d: BoardDrawing)
    ensures
        drawings_view(final(out)@) == drawings_view(old(out)@) + shown(layer, mirrored, d),
{
    let ghost before = drawings_view(out@);
    match drawing_side_exec(layer, mirrored) {
        Some(side) => {
            out.push(DrawingPlan { side, shape: d });
            assert(drawings_view(out@) =~= before + shown(layer, mirrored, d));
        },
        None => {
            assert(drawings_view(out@) =~= before + shown(layer, mirrored, d));
        },
    }
}

/// Plans the footprint of one placement.
pub fn plan_footprint(packages: &[Vec<BinPackage>], placement: &BinPlacement) -> (res: FootprintPlan)
    ensures
        res@ == plan_spec(libs_view(packages@), placement@),
{
    let mirrored = placement.mirrored;
    let mut pads: Vec<PadPlan> = Vec::new();
    let mut drawings: Vec<DrawingPlan> = Vec::new();
    match lookup_package(packages, placement.lib_idx, placement.pkg_idx) {
        Some(pkg) => {
            let ghost pv = pkg@;
            let mut i: usize = 0;
            while i < pkg.pads.len()
                invariant
                    i <= pkg.pads@.len(),
                    pv == pkg@,
                    pads_view(pads@) =~= th_plans(pv.pads).take(i as int),
                decreases pkg.pads@.len() - i,
            {
                let ghost before = pads_view(pads@);
                pads.push(th_pad(&pkg.pads[i]));
                assert(th_plans(pv.pads).take(i + 1) =~= before.push(th_plan(pv.pads[i as int])));
                assert(pads_view(pads@) =~= before.push(th_plan(pv.pads[i as int])));
                i += 1;
            }
            assert(th_plans(pv.pads).take(pv.pads.len() as int) =~= th_plans(pv.pads));
            assert(th_plans(pv.pads) + smd_plans(pv.smds, mirrored).take(0) =~= th_plans(pv.pads));
            let mut j: usize = 0;
            while j < pkg.smds.len()
                invariant
                    j <= pkg.smds@.len(),
                    pv == pkg@,
                    mirrored == placement.mirrored,
                    pads_view(pads@) =~= th_plans(pv.pads) + smd_plans(pv.smds, mirrored).take(j as int),
                decreases pkg.smds@.len() - j,
            {
                let ghost before = pads_view(pads@);
                pads.push(smd_pad(&pkg.smds[j], mirrored));
                assert(smd_plans(pv.smds, mirrored).take(j + 1) =~= smd_plans(pv.smds, mirrored).take(j as int).push(
                    smd_plan(pv.smds[j as int], mirrored),
                ));
                assert(pads_view(pads@) =~= before.push(smd_plan(pv.smds[j as int], mirrored)));
                j += 1;
            }
            assert(smd_plans(pv.smds, mirrored).take(pv.smds.len() as int) =~= smd_plans(pv.smds, mirrored));
            let mut k: usize = 0;
            while k < pkg.wires.len()
                invariant
                    k <= pkg.wires@.len(),
                    pv == pkg@,
                    mirrored == placement.mirrored,
                    drawings_view(drawings@) == wire_plans(pv.wires.take(k as int), mirrored),
                decreases pkg.wires@.len() - k,
            {
                let w = pkg.wires[k];
                assert(pv.wires.take(k + 1).drop_last() =~= pv.wires.take(k as int));
                push_shown(&mut drawings, w.layer, mirrored, BoardDrawing::Segment { x1: w.x1, y1: w.y1, x2: w.x2, y2: w.y2, width: w.width });
                k += 1;
            }
            assert(pv.wires.take(pv.wires.len() as int) =~= pv.wires);
            let ghost after_wires = drawings_view(drawings@);
            let mut m: usize = 0;
            assert(after_wires + circle_plans(pv.circles.take(0), mirrored) =~= after_wires);
            while m < pkg.circles.len()
                invariant
                    m <= pkg.circles@.len(),
                    pv == pkg@,
                    mirrored == placement.mirrored,
                    drawings_view(drawings@) == after_wires + circle_plans(pv.circles.take(m as int), mirrored),
                decreases pkg.circles@.len() - m,
            {
                let c = pkg.circles[m];
                assert(pv.circles.take(m + 1).drop_last() =~= pv.circles.take(m as int));
                push_shown(&mut drawings, c.layer, mirrored, BoardDrawing::Circle { x: c.x, y: c.y, radius: c.radius, width: c.width });
                assert(drawings_view(drawings@) =~= after_wires + circle_plans(pv.circles.take(m + 1), mirrored));
                m += 1;
            }
            assert(pv.circles.take(pv.circles.len() as int) =~= pv.circles);
            let ghost after_circles = drawings_view(drawings@);
            let mut n: usize = 0;
            assert(after_circles + rect_plans(pv.rects.take(0), mirrored) =~= after_circles);
            while n < pkg.rects.len()
                invariant
                    n <= pkg.rects@.len(),
                    pv == pkg@,
                    mirrored == placement.mirrored,
                    drawings_view(drawings@) == after_circles + rect_plans(pv.rects.take(n as int), mirrored),
                decreases pkg.rects@.len() - n,
            {
                let r = pkg.rects[n];
                assert(pv.rects.take(n + 1).drop_last() =~= pv.rects.take(n as int));
                push_shown(&mut drawings, r.layer, mirrored, BoardDrawing::Rect { x1: r.x1, y1: r.y1, x2: r.x2, y2: r.y2 });
                assert(drawings_view(drawings@) =~= after_circles + rect_plans(pv.rects.take(n + 1), mirrored));
                n += 1;
            }
            assert(pv.rects.take(pv.rects.len() as int) =~= pv.rects);
        },
        None => {
            assert(pads_view(pads@) =~= Seq::<PadPlanView>::empty());
            assert(drawings_view(drawings@) =~= Seq::<DrawingPlanView>::empty());
        },
    }
    FootprintPlan {
        name: placement.name.clone(),
        value: placement.value.clone(),
        x: placement.x,
        y: placement.y,
        angle: placement.angle,
        mirrored,
        side: if mirrored { "B" } else { "F" },
        pads,
        drawings,
    }
}

pub open spec fn plans_view(v: Seq<FootprintPlan>) -> Seq<FootprintPlanView> {
    Seq::new(v.len(), |i: int| v[i]@)
}

/// Plans the footprint of every placement, in order.
pub fn build_footprints(packages: &[Vec<BinPackage>], placements: &[BinPlacement]) -> (res: Vec<FootprintPlan>)
    ensures
        plans_view(res@) == Seq::new(placements@.len(), |i: int| plan_spec(libs_view(packages@), placements@[i]@)),
{
    let mut out: Vec<FootprintPlan> = Vec::new();
    let mut i: usize = 0;
    while i < placements.len()
        invariant
            i <= placements@.len(),
            plans_view(out@) =~= Seq::new(i as nat, |k: int| plan_spec(libs_view(packages@), placements@[k]@)),
        decreases placements@.len() - i,
    {
        let ghost before = plans_view(out@);
        let f = plan_footprint(packages, &placements[i]);
        let ghost fv = f@;
        out.push(f);
        assert(plans_view(out@) =~= before.push(fv));
        i += 1;
    }
    out
}

} // verus!
