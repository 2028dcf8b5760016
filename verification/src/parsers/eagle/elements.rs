//! The components placed on an Eagle XML board: each `element` with the
//! library package it names, its pads and its silkscreen/fabrication
//! drawings in package coordinates. Lengths and the rotation angle stay the
//! attributes' decimal text; placing the package on the board is left to the
//! caller.
use vstd::prelude::*;

use super::board::{
    at, circle_at, layer_at, layer_attr, named_children, named_in, rect_at, shapes_view, text_attr, tv, wire_at,
    wire_exec, Text, XmlShape, XmlShapeView,
};
use super::xml::{children_of, has_name, nodes_view, XmlNode, XmlNodeView};
use super::{categorize_eagle_layer, mirror_eagle_layer, mirror_layer, layer_side, EagleLayerCat};
use crate::parsers::eagle_binary::footprint::PadShape;
use crate::parsers::eagle_binary::{layer_cat_spec, layer_side_spec, mirror_layer_spec, LayerCat};
use crate::text::{chars_of, eq_chars, eq_str, push_str, string_from_chars, to_string};

verus! {

// ───────────────────────────── walking the tree ─────────────────────────────

/// The children named `tag` of each node of `ks`, node after node.
pub open spec fn descend(nv: Seq<XmlNodeView>, ks: Seq<int>, tag: Seq<char>) -> Seq<int>
    decreases ks.len(),
{
    if ks.len() == 0 {
        seq![]
    } else {
        descend(nv, ks.drop_last(), tag) + named_in(nv, children_of(nv, ks.last()), tag)
    }
}

pub open spec fn ints(v: Seq<usize>) -> Seq<int> {
    v.map_values(|k: usize| k as int)
}

fn descend_exec(nodes: &[XmlNode], ks: &Vec<usize>, tag: &str) -> (res: Vec<usize>)
    requires
        forall|j: int| 0 <= j < ks@.len() ==> #[trigger] ks@[j] < nodes@.len(),
    ensures
        ints(res@) == descend(nodes_view(nodes@), ints(ks@), tag@),
        forall|j: int| 0 <= j < res@.len() ==> #[trigger] res@[j] < nodes@.len(),
{
    let ghost nv = nodes_view(nodes@);
    let mut out: Vec<usize> = Vec::new();
    let mut i: usize = 0;
    assert(ints(ks@).take(0) =~= Seq::<int>::empty());
    assert(ints(out@) =~= Seq::<int>::empty());
    while i < ks.len()
        invariant
            i <= ks@.len(),
            nv == nodes_view(nodes@),
            forall|j: int| 0 <= j < ks@.len() ==> #[trigger] ks@[j] < nodes@.len(),
            ints(out@) == descend(nv, ints(ks@).take(i as int), tag@),
            forall|j: int| 0 <= j < out@.len() ==> #[trigger] out@[j] < nodes@.len(),
        decreases ks@.len() - i,
    {
        assert(ints(ks@).take(i + 1).drop_last() =~= ints(ks@).take(i as int));
        assert(ints(ks@).take(i + 1).last() == ks@[i as int] as int);
        let kids = named_children(nodes, ks[i], tag);
        let ghost before = ints(out@);
        let mut t: usize = 0;
        while t < kids.len()
            invariant
                t <= kids@.len(),
                forall|j: int| 0 <= j < kids@.len() ==> #[trigger] kids@[j] < nodes@.len(),
                ints(out@) == before + ints(kids@).take(t as int),
                forall|j: int| 0 <= j < out@.len() ==> #[trigger] out@[j] < nodes@.len(),
            decreases kids@.len() - t,
        {
            let ghost prev = ints(out@);
            out.push(kids[t]);
            assert(ints(out@) =~= prev.push(kids@[t as int] as int));
            assert(ints(kids@).take(t + 1) =~= ints(kids@).take(t as int).push(kids@[t as int] as int));
            assert(ints(out@) =~= before + ints(kids@).take(t + 1));
            t += 1;
        }
        assert(ints(kids@).take(kids@.len() as int) =~= ints(kids@));
        i += 1;
    }
    assert(ints(ks@).take(ks@.len() as int) =~= ints(ks@));
    out
}

/// Attribute `a` of node `k`, or nothing.
pub open spec fn text_or_empty(nv: Seq<XmlNodeView>, k: int, a: Seq<char>) -> Seq<char> {
    match at(nv, k, a) {
        Some(v) => v,
        None => seq![],
    }
}

fn text_or_empty_exec(node: &XmlNode, a: &str) -> (res: String)
    ensures
        res@ == match super::xml::attr_of(node@.attributes, a@) {
            Some(v) => v,
            None => Seq::<char>::empty(),
        },
{
    match text_attr(node, a) {
        Some(v) => v,
        None => String::new(),
    }
}

// ───────────────────────────── packages ─────────────────────────────

/// The packages of a board's libraries, each keyed `"{library}/{package}"`,
/// libraries in order and packages in order within each.
pub open spec fn package_entries(nv: Seq<XmlNodeView>, libs: Seq<int>) -> Seq<(Seq<char>, int)>
    decreases libs.len(),
{
    if libs.len() == 0 {
        seq![]
    } else {
        let l = libs.last();
        let pkgs = descend(nv, descend(nv, seq![l], "packages"@), "package"@);
        package_entries(nv, libs.drop_last()) + Seq::new(
            pkgs.len(),
            |i: int| (text_or_empty(nv, l, "name"@) + "/"@ + text_or_empty(nv, pkgs[i], "name"@), pkgs[i]),
        )
    }
}

/// The board's libraries.
pub open spec fn libraries(nv: Seq<XmlNodeView>, board: int) -> Seq<int> {
    descend(nv, descend(nv, seq![board], "libraries"@), "library"@)
}

/// The package a key names: the last one defined under that key.
pub open spec fn package_for(entries: Seq<(Seq<char>, int)>, key: Seq<char>) -> Option<int>
    decreases entries.len(),
{
    if entries.len() == 0 {
        None
    } else if entries.last().0 == key {
        Some(entries.last().1)
    } else {
        package_for(entries.drop_last(), key)
    }
}

fn package_table(nodes: &[XmlNode], board: usize) -> (res: Vec<(Vec<char>, usize)>)
    requires
        board < nodes@.len(),
    ensures
        Seq::new(res@.len(), |i: int| (res@[i].0@, res@[i].1 as int)) == package_entries(
            nodes_view(nodes@),
            libraries(nodes_view(nodes@), board as int),
        ),
        forall|j: int| 0 <= j < res@.len() ==> #[trigger] res@[j].1 < nodes@.len(),
{
    let ghost nv = nodes_view(nodes@);
    let start = vec![board];
    assert(ints(start@) =~= seq![board as int]);
    let groups = descend_exec(nodes, &start, "libraries");
    let libs = descend_exec(nodes, &groups, "library");
    let ghost lv = ints(libs@);
    let mut out: Vec<(Vec<char>, usize)> = Vec::new();
    let mut i: usize = 0;
    assert(lv.take(0) =~= Seq::<int>::empty());
    assert(Seq::new(out@.len(), |j: int| (out@[j].0@, out@[j].1 as int)) =~= Seq::<(Seq<char>, int)>::empty());
    while i < libs.len()
        invariant
            i <= libs@.len(),
            nv == nodes_view(nodes@),
            lv == ints(libs@),
            lv == libraries(nv, board as int),
            forall|j: int| 0 <= j < libs@.len() ==> #[trigger] libs@[j] < nodes@.len(),
            Seq::new(out@.len(), |j: int| (out@[j].0@, out@[j].1 as int)) == package_entries(nv, lv.take(i as int)),
            forall|j: int| 0 <= j < out@.len() ==> #[trigger] out@[j].1 < nodes@.len(),
        decreases libs@.len() - i,
    {
        assert(lv.take(i + 1).drop_last() =~= lv.take(i as int));
        assert(lv.take(i + 1).last() == libs@[i as int] as int);
        let l = libs[i];
        let one = vec![l];
        assert(ints(one@) =~= seq![l as int]);
        let pg = descend_exec(nodes, &one, "packages");
        let pkgs = descend_exec(nodes, &pg, "package");
        let lib_name = chars_of(text_or_empty_exec(&nodes[l], "name").as_str());
        let ghost before = Seq::new(out@.len(), |j: int| (out@[j].0@, out@[j].1 as int));
        let ghost pv = ints(pkgs@);
        let mut t: usize = 0;
        while t < pkgs.len()
            invariant
                t <= pkgs@.len(),
                nv == nodes_view(nodes@),
                pv == ints(pkgs@),
                l < nodes@.len(),
                lib_name@ == text_or_empty(nv, l as int, "name"@),
                forall|j: int| 0 <= j < pkgs@.len() ==> #[trigger] pkgs@[j] < nodes@.len(),
                forall|j: int| 0 <= j < out@.len() ==> #[trigger] out@[j].1 < nodes@.len(),
                Seq::new(out@.len(), |j: int| (out@[j].0@, out@[j].1 as int)) == before + Seq::new(
                    t as nat,
                    |j: int| (text_or_empty(nv, l as int, "name"@) + "/"@ + text_or_empty(nv, pv[j], "name"@), pv[j]),
                ),
            decreases pkgs@.len() - t,
        {
            let p = pkgs[t];
            let mut key = string_from_chars(&lib_name);
            push_str(&mut key, "/");
            let pn = text_or_empty_exec(&nodes[p], "name");
            push_str(&mut key, pn.as_str());
            let kc = chars_of(key.as_str());
            assert(nv[p as int] == nodes@[p as int]@);
            let ghost entry = (kc@, p as int);
            let ghost prev = Seq::new(out@.len(), |j: int| (out@[j].0@, out@[j].1 as int));
            out.push((kc, p));
            assert(Seq::new(out@.len(), |j: int| (out@[j].0@, out@[j].1 as int)) =~= prev.push(entry));
            assert(Seq::new(out@.len(), |j: int| (out@[j].0@, out@[j].1 as int)) =~= before + Seq::new(
                (t + 1) as nat,
                |j: int| (text_or_empty(nv, l as int, "name"@) + "/"@ + text_or_empty(nv, pv[j], "name"@), pv[j]),
            ));
            t += 1;
        }
        i += 1;
    }
    assert(lv.take(libs@.len() as int) =~= lv);
    out
}

fn find_package(table: &Vec<(Vec<char>, usize)>, key: &Vec<char>) -> (res: Option<usize>)
    ensures
        match res {
            Some(p) => package_for(Seq::new(table@.len(), |i: int| (table@[i].0@, table@[i].1 as int)), key@) == Some(p as int)
                && exists|j: int| 0 <= j < table@.len() && table@[j].1 == p,
            None => package_for(Seq::new(table@.len(), |i: int| (table@[i].0@, table@[i].1 as int)), key@) is None,
        },
{
    let ghost tv_ = Seq::new(table@.len(), |i: int| (table@[i].0@, table@[i].1 as int));
    let mut i = table.len();
    assert(tv_.take(tv_.len() as int) =~= tv_);
    while i > 0
        invariant
            i <= table@.len(),
            tv_ == Seq::new(table@.len(), |j: int| (table@[j].0@, table@[j].1 as int)),
            package_for(tv_, key@) == package_for(tv_.take(i as int), key@),
        decreases i,
    {
        assert(tv_.take(i as int).drop_last() =~= tv_.take(i - 1));
        assert(tv_.take(i as int).last() == tv_[i - 1]);
        if eq_chars(&table[i - 1].0, key) {
            return Some(table[i - 1].1);
        }
        i -= 1;
    }
    None
}

// ───────────────────────────── footprints ─────────────────────────────

/// A pad of a placed component, in package coordinates.
#[derive(Debug, Clone)]
pub enum XmlPad {
    /// A through-hole pad; without a diameter it is twice as wide as its
    /// drill.
    Th { name: String, x: Option<String>, y: Option<String>, drill: Option<String>, diameter: Option<String>, shape: PadShape, pin1: bool },
    /// A surface pad on one side; a rounded rectangle when its roundness is
    /// above zero, else a rectangle.
    Smd { name: String, x: Option<String>, y: Option<String>, dx: Option<String>, dy: Option<String>, roundness: Option<String>, side: String, pin1: bool },
}

pub enum XmlPadView {
    Th { name: Seq<char>, x: Text, y: Text, drill: Text, diameter: Text, shape: PadShape, pin1: bool },
    Smd { name: Seq<char>, x: Text, y: Text, dx: Text, dy: Text, roundness: Text, side: Seq<char>, pin1: bool },
}

impl View for XmlPad {
    type V = XmlPadView;

    open spec fn view(&self) -> XmlPadView {
        match self {
            XmlPad::Th { name, x, y, drill, diameter, shape, pin1 } => XmlPadView::Th {
                name: name@,
                x: tv(*x),
                y: tv(*y),
                drill: tv(*drill),
                diameter: tv(*diameter),
                shape: *shape,
                pin1: *pin1,
            },
            XmlPad::Smd { name, x, y, dx, dy, roundness, side, pin1 } => XmlPadView::Smd {
                name: name@,
                x: tv(*x),
                y: tv(*y),
                dx: tv(*dx),
                dy: tv(*dy),
                roundness: tv(*roundness),
                side: side@,
                pin1: *pin1,
            },
        }
    }
}

/// A drawing of a placed component, shown on the silkscreen or fabrication
/// layer of one side.
#[derive(Debug, Clone)]
pub struct XmlDrawingPlan {
    pub side: &'static str,
    pub shape: XmlShape,
}

/// A placed component: its names, its placement as attribute text, its side,
/// and what its package carries.
#[derive(Debug, Clone)]
pub struct XmlFootprintPlan {
    pub name: String,
    pub value: String,
    pub package: String,
    pub x: Option<String>,
    pub y: Option<String>,
    /// The rotation angle in degrees, the text of `rot` after its leading
    /// `M`s and then `R`s.
    pub angle: String,
    /// Whether `rot` starts with `M`: the component sits on the bottom.
    pub mirrored: bool,
    pub side: &'static str,
    pub pads: Vec<XmlPad>,
    pub drawings: Vec<XmlDrawingPlan>,
}

pub struct XmlFootprintView {
    pub name: Seq<char>,
    pub value: Seq<char>,
    pub package: Seq<char>,
    pub x: Text,
    pub y: Text,
    pub angle: Seq<char>,
    pub mirrored: bool,
    pub side: Seq<char>,
    pub pads: Seq<XmlPadView>,
    pub drawings: Seq<(Seq<char>, XmlShapeView)>,
}

pub open spec fn pads_view(v: Seq<XmlPad>) -> Seq<XmlPadView> {
    Seq::new(v.len(), |i: int| v[i]@)
}

pub open spec fn plans_view(v: Seq<XmlDrawingPlan>) -> Seq<(Seq<char>, XmlShapeView)> {
    Seq::new(v.len(), |i: int| (v[i].side@, v[i].shape@))
}

impl View for XmlFootprintPlan {
    type V = XmlFootprintView;

    open spec fn view(&self) -> XmlFootprintView {
        XmlFootprintView {
            name: self.name@,
            value: self.value@,
            package: self.package@,
            x: tv(self.x),
            y: tv(self.y),
            angle: self.angle@,
            mirrored: self.mirrored,
            side: self.side@,
            pads: pads_view(self.pads@),
            drawings: plans_view(self.drawings@),
        }
    }
}

pub open spec fn is_pin1(name: Seq<char>) -> bool {
    name == "1"@ || name == "A1"@
}

/// The footprint shape of a through-hole pad's `shape` (round when absent).
pub open spec fn th_shape_of(shape: Text) -> PadShape {
    match shape {
        Some(s) => if s == "square"@ || s == "octagon"@ {
            PadShape::Rect
        } else if s == "long"@ {
            PadShape::Oval
        } else {
            PadShape::Circle
        },
        None => PadShape::Circle,
    }
}

pub open spec fn th_pad(nv: Seq<XmlNodeView>, k: int) -> XmlPadView {
    XmlPadView::Th {
        name: text_or_empty(nv, k, "name"@),
        x: at(nv, k, "x"@),
        y: at(nv, k, "y"@),
        drill: at(nv, k, "drill"@),
        diameter: at(nv, k, "diameter"@),
        shape: th_shape_of(at(nv, k, "shape"@)),
        pin1: is_pin1(text_or_empty(nv, k, "name"@)),
    }
}

/// The copper side of an SMD layer; a mirrored component's copper swaps.
pub open spec fn smd_side(layer: nat, mirrored: bool) -> Seq<char> {
    if mirrored && layer == 1 {
        "B"@
    } else if mirrored && layer == 16 {
        "F"@
    } else {
        layer_side_spec(layer as int)
    }
}

pub open spec fn smd_pad(nv: Seq<XmlNodeView>, k: int, mirrored: bool) -> XmlPadView {
    XmlPadView::Smd {
        name: text_or_empty(nv, k, "name"@),
        x: at(nv, k, "x"@),
        y: at(nv, k, "y"@),
        dx: at(nv, k, "dx"@),
        dy: at(nv, k, "dy"@),
        roundness: at(nv, k, "roundness"@),
        side: smd_side(layer_at(nv, k), mirrored),
        pin1: is_pin1(text_or_empty(nv, k, "name"@)),
    }
}

/// The side a package drawing on `layer` shows on: silkscreen and
/// fabrication layers, taken on the other side when the component is
/// mirrored; none for other layers.
pub open spec fn drawing_side(layer: nat, mirrored: bool) -> Option<Seq<char>> {
    let eff = if mirrored { mirror_layer_spec(layer as int) } else { layer as int };
    match layer_cat_spec(eff) {
        LayerCat::SilkF | LayerCat::FabF => Some("F"@),
        LayerCat::SilkB | LayerCat::FabB => Some("B"@),
        _ => None,
    }
}

/// The shape of a package drawing node.
pub open spec fn shape_of(nv: Seq<XmlNodeView>, k: int) -> XmlShapeView {
    if nv[k].name == "wire"@ {
        wire_at(nv, k)
    } else if nv[k].name == "circle"@ {
        circle_at(nv, k)
    } else {
        rect_at(nv, k)
    }
}

/// The drawings among `ks` that show, in order.
pub open spec fn shown(nv: Seq<XmlNodeView>, ks: Seq<int>, mirrored: bool) -> Seq<(Seq<char>, XmlShapeView)>
    decreases ks.len(),
{
    if ks.len() == 0 {
        seq![]
    } else {
        let k = ks.last();
        shown(nv, ks.drop_last(), mirrored) + match drawing_side(layer_at(nv, k), mirrored) {
            Some(side) => seq![(side, shape_of(nv, k))],
            None => seq![],
        }
    }
}

/// `rot` without its leading `c`s.
pub open spec fn drop_leading(s: Seq<char>, c: char) -> Seq<char>
    decreases s.len(),
{
    if s.len() > 0 && s[0] == c {
        drop_leading(s.drop_first(), c)
    } else {
        s
    }
}

/// The `rot` text of an element (`R0` when absent).
pub open spec fn rot_of(nv: Seq<XmlNodeView>, e: int) -> Seq<char> {
    match at(nv, e, "rot"@) {
        Some(r) => r,
        None => "R0"@,
    }
}

/// What element `e` becomes: its package (the last one defined under
/// `"{library}/{package}"`) gives its through-hole pads, then its SMD pads,
/// then its shown wires, circles and rectangles; without a package it
/// carries nothing.
pub open spec fn element_spec(nv: Seq<XmlNodeView>, entries: Seq<(Seq<char>, int)>, e: int) -> XmlFootprintView {
    let rot = rot_of(nv, e);
    let mirrored = rot.len() > 0 && rot[0] == 'M';
    let key = text_or_empty(nv, e, "library"@) + "/"@ + text_or_empty(nv, e, "package"@);
    let (pads, drawings) = match package_for(entries, key) {
        Some(p) => {
            let kids = children_of(nv, p);
            let ths = named_in(nv, kids, "pad"@);
            let smds = named_in(nv, kids, "smd"@);
            (
                Seq::new(ths.len(), |i: int| th_pad(nv, ths[i])) + Seq::new(smds.len(), |i: int| smd_pad(nv, smds[i], mirrored)),
                shown(nv, named_in(nv, kids, "wire"@), mirrored) + shown(nv, named_in(nv, kids, "circle"@), mirrored)
                    + shown(nv, named_in(nv, kids, "rectangle"@), mirrored),
            )
        },
        None => (seq![], seq![]),
    };
    XmlFootprintView {
        name: text_or_empty(nv, e, "name"@),
        value: text_or_empty(nv, e, "value"@),
        package: text_or_empty(nv, e, "package"@),
        x: at(nv, e, "x"@),
        y: at(nv, e, "y"@),
        angle: drop_leading(drop_leading(rot, 'M'), 'R'),
        mirrored,
        side: if mirrored { "B"@ } else { "F"@ },
        pads,
        drawings,
    }
}

/// The board's elements.
pub open spec fn elements_of(nv: Seq<XmlNodeView>, board: int) -> Seq<int> {
    descend(nv, descend(nv, seq![board], "elements"@), "element"@)
}

/// Every element of the board, in order, as [`element_spec`] states.
pub open spec fn elements_spec(nv: Seq<XmlNodeView>, board: int) -> Seq<XmlFootprintView> {
    let es = elements_of(nv, board);
    let entries = package_entries(nv, libraries(nv, board));
    Seq::new(es.len(), |i: int| element_spec(nv, entries, es[i]))
}

fn drop_leading_exec(s: &[char], c: char) -> (res: Vec<char>)
    ensures
        res@ == drop_leading(s@, c),
{
    let mut i: usize = 0;
    assert(s@.skip(0) =~= s@);
    while i < s.len() && s[i] == c
        invariant
            i <= s@.len(),
            drop_leading(s@.skip(i as int), c) == drop_leading(s@, c),
        decreases s@.len() - i,
    {
        assert(s@.skip(i as int).drop_first() =~= s@.skip(i + 1));
        i += 1;
    }
    let mut out: Vec<char> = Vec::new();
    let mut k = i;
    while k < s.len()
        invariant
            i <= k <= s@.len(),
            out@ == s@.subrange(i as int, k as int),
        decreases s@.len() - k,
    {
        out.push(s[k]);
        k += 1;
    }
    assert(out@ =~= s@.skip(i as int));
    out
}

fn pin1_exec(name: &String) -> (res: bool)
    ensures
        res == is_pin1(name@),
{
    let cs = chars_of(name.as_str());
    eq_str(&cs, "1") || eq_str(&cs, "A1")
}

fn th_pad_exec(node: &XmlNode) -> (res: XmlPad)
    ensures
        res@ == th_pad(seq![node@], 0),
{
    let name = text_or_empty_exec(node, "name");
    let shape = match text_attr(node, "shape") {
        Some(s) => {
            let cs = chars_of(s.as_str());
            if eq_str(&cs, "square") || eq_str(&cs, "octagon") {
                PadShape::Rect
            } else if eq_str(&cs, "long") {
                PadShape::Oval
            } else {
                PadShape::Circle
            }
        },
        None => PadShape::Circle,
    };
    let pin1 = pin1_exec(&name);
    XmlPad::Th {
        name,
        x: text_attr(node, "x"),
        y: text_attr(node, "y"),
        drill: text_attr(node, "drill"),
        diameter: text_attr(node, "diameter"),
        shape,
        pin1,
    }
}

fn smd_pad_exec(node: &XmlNode, mirrored: bool) -> (res: XmlPad)
    ensures
        res@ == smd_pad(seq![node@], 0, mirrored),
{
    let name = text_or_empty_exec(node, "name");
    let layer = layer_attr(node);
    let side = if mirrored { mirror_layer(layer) } else { to_string(layer_side(layer)) };
    let pin1 = pin1_exec(&name);
    XmlPad::Smd {
        name,
        x: text_attr(node, "x"),
        y: text_attr(node, "y"),
        dx: text_attr(node, "dx"),
        dy: text_attr(node, "dy"),
        roundness: text_attr(node, "roundness"),
        side,
        pin1,
    }
}

fn drawing_side_exec(layer: u32, mirrored: bool) -> (res: Option<&'static str>)
    ensures
        match res {
            Some(s) => drawing_side(layer as nat, mirrored) == Some(s@),
            None => drawing_side(layer as nat, mirrored) is None,
        },
{
    let eff = if mirrored { mirror_eagle_layer(layer) } else { layer };
    match categorize_eagle_layer(eff) {
        EagleLayerCat::SilkF | EagleLayerCat::FabF => Some("F"),
        EagleLayerCat::SilkB | EagleLayerCat::FabB => Some("B"),
        _ => None,
    }
}

fn shape_exec(node: &XmlNode) -> (res: XmlShape)
    ensures
        res@ == shape_of(seq![node@], 0),
{
    if has_name(node, "wire") {
        wire_exec(node)
    } else if has_name(node, "circle") {
        XmlShape::Circle {
            x: text_attr(node, "x"),
            y: text_attr(node, "y"),
            radius: text_attr(node, "radius"),
            width: text_attr(node, "width"),
        }
    } else {
        XmlShape::Rect {
            x1: text_attr(node, "x1"),
            y1: text_attr(node, "y1"),
            x2: text_attr(node, "x2"),
            y2: text_attr(node, "y2"),
        }
    }
}

proof fn lemma_node_specs(nv: Seq<XmlNodeView>, k: int, mirrored: bool)
    requires
        0 <= k < nv.len(),
    ensures
        th_pad(seq![nv[k]], 0) == th_pad(nv, k),
        smd_pad(seq![nv[k]], 0, mirrored) == smd_pad(nv, k, mirrored),
        shape_of(seq![nv[k]], 0) == shape_of(nv, k),
{
}

/// Appends the shown drawings among the nodes `ks`.
fn push_shown(out: &mut Vec<XmlDrawingPlan>, nodes: &[XmlNode], ks: &Vec<usize>, mirrored: bool)
    requires
        forall|j: int| 0 <= j < ks@.len() ==> #[trigger] ks@[j] < nodes@.len(),
    ensures
        plans_view(final(out)@) == plans_view(old(out)@) + shown(nodes_view(nodes@), ints(ks@), mirrored),
{
    let ghost nv = nodes_view(nodes@);
    let ghost start = plans_view(out@);
    let mut i: usize = 0;
    assert(ints(ks@).take(0) =~= Seq::<int>::empty());
    assert(start + Seq::<(Seq<char>, XmlShapeView)>::empty() =~= start);
    while i < ks.len()
        invariant
            i <= ks@.len(),
            nv == nodes_view(nodes@),
            forall|j: int| 0 <= j < ks@.len() ==> #[trigger] ks@[j] < nodes@.len(),
            plans_view(out@) == start + shown(nv, ints(ks@).take(i as int), mirrored),
        decreases ks@.len() - i,
    {
        assert(ints(ks@).take(i + 1).drop_last() =~= ints(ks@).take(i as int));
        assert(ints(ks@).take(i + 1).last() == ks@[i as int] as int);
        let node = &nodes[ks[i]];
        assert(nv[ks@[i as int] as int] == node@);
        proof {
            lemma_node_specs(nv, ks@[i as int] as int, mirrored);
        }
        let ghost before = plans_view(out@);
        match drawing_side_exec(layer_attr(node), mirrored) {
            Some(side) => {
                let s = shape_exec(node);
                let ghost sv = s@;
                out.push(XmlDrawingPlan { side, shape: s });
                assert(plans_view(out@) =~= before.push((side@, sv)));
                assert(plans_view(out@) =~= start + shown(nv, ints(ks@).take(i + 1), mirrored));
            },
            None => {
                assert(plans_view(out@) =~= start + shown(nv, ints(ks@).take(i + 1), mirrored));
            },
        }
        i += 1;
    }
    assert(ints(ks@).take(ks@.len() as int) =~= ints(ks@));
}

fn element_exec(nodes: &[XmlNode], table: &Vec<(Vec<char>, usize)>, e: usize) -> (res: XmlFootprintPlan)
    requires
        e < nodes@.len(),
        forall|j: int| 0 <= j < table@.len() ==> #[trigger] table@[j].1 < nodes@.len(),
    ensures
        res@ == element_spec(nodes_view(nodes@), Seq::new(table@.len(), |i: int| (table@[i].0@, table@[i].1 as int)), e as int),
{
    let ghost nv = nodes_view(nodes@);
    let ghost entries = Seq::new(table@.len(), |i: int| (table@[i].0@, table@[i].1 as int));
    let node = &nodes[e];
    assert(nv[e as int] == node@);
    let rot = match text_attr(node, "rot") {
        Some(r) => chars_of(r.as_str()),
        None => chars_of("R0"),
    };
    let mirrored = rot.len() > 0 && rot[0] == 'M';
    let no_m = drop_leading_exec(&rot, 'M');
    let angle = drop_leading_exec(&no_m, 'R');
    let mut key = text_or_empty_exec(node, "library");
    push_str(&mut key, "/");
    let package = text_or_empty_exec(node, "package");
    push_str(&mut key, package.as_str());
    let kc = chars_of(key.as_str());
    let mut pads: Vec<XmlPad> = Vec::new();
    let mut drawings: Vec<XmlDrawingPlan> = Vec::new();
    match find_package(table, &kc) {
        Some(p) => {
            assert(p < nodes@.len());
            let ths = named_children(nodes, p, "pad");
            let mut i: usize = 0;
            while i < ths.len()
                invariant
                    i <= ths@.len(),
                    nv == nodes_view(nodes@),
                    forall|j: int| 0 <= j < ths@.len() ==> #[trigger] ths@[j] < nodes@.len(),
                    pads_view(pads@) =~= Seq::new(i as nat, |t: int| th_pad(nv, ints(ths@)[t])),
                decreases ths@.len() - i,
            {
                proof {
                    lemma_node_specs(nv, ths@[i as int] as int, mirrored);
                }
                assert(nv[ths@[i as int] as int] == nodes@[ths@[i as int] as int]@);
                let ghost before = pads_view(pads@);
                let pad = th_pad_exec(&nodes[ths[i]]);
                let ghost pv = pad@;
                pads.push(pad);
                assert(pads_view(pads@) =~= before.push(pv));
                i += 1;
            }
            let ghost th_part = pads_view(pads@);
            let smds = named_children(nodes, p, "smd");
            let mut j: usize = 0;
            while j < smds.len()
                invariant
                    j <= smds@.len(),
                    nv == nodes_view(nodes@),
                    forall|t: int| 0 <= t < smds@.len() ==> #[trigger] smds@[t] < nodes@.len(),
                    pads_view(pads@) =~= th_part + Seq::new(j as nat, |t: int| smd_pad(nv, ints(smds@)[t], mirrored)),
                decreases smds@.len() - j,
            {
                proof {
                    lemma_node_specs(nv, smds@[j as int] as int, mirrored);
                }
                assert(nv[smds@[j as int] as int] == nodes@[smds@[j as int] as int]@);
                let ghost before = pads_view(pads@);
                let pad = smd_pad_exec(&nodes[smds[j]], mirrored);
                let ghost pv = pad@;
                pads.push(pad);
                assert(pads_view(pads@) =~= before.push(pv));
                j += 1;
            }
            let wires = named_children(nodes, p, "wire");
            push_shown(&mut drawings, nodes, &wires, mirrored);
            let circles = named_children(nodes, p, "circle");
            push_shown(&mut drawings, nodes, &circles, mirrored);
            let rects = named_children(nodes, p, "rectangle");
            push_shown(&mut drawings, nodes, &rects, mirrored);
            assert(Seq::<(Seq<char>, XmlShapeView)>::empty() + shown(nv, ints(wires@), mirrored) =~= shown(nv, ints(wires@), mirrored));
        },
        None => {
            assert(pads_view(pads@) =~= Seq::<XmlPadView>::empty());
            assert(plans_view(drawings@) =~= Seq::<(Seq<char>, XmlShapeView)>::empty());
        },
    }
    XmlFootprintPlan {
        name: text_or_empty_exec(node, "name"),
        value: text_or_empty_exec(node, "value"),
        package,
        x: text_attr(node, "x"),
        y: text_attr(node, "y"),
        angle: string_from_chars(&angle),
        mirrored,
        side: if mirrored { "B" } else { "F" },
        pads,
        drawings,
    }
}

pub open spec fn footprints_view(v: Seq<XmlFootprintPlan>) -> Seq<XmlFootprintView> {
    Seq::new(v.len(), |i: int| v[i]@)
}

/// The components of the board: every `element` of every `elements` child,
/// in order, with its package's pads and drawings.
pub fn parse_elements(nodes: &[XmlNode], board: usize) -> (res: Vec<XmlFootprintPlan>)
    requires
        board < nodes@.len(),
    ensures
        footprints_view(res@) == elements_spec(nodes_view(nodes@), board as int),
{
    let ghost nv = nodes_view(nodes@);
    let table = package_table(nodes, board);
    let ghost entries = Seq::new(table@.len(), |i: int| (table@[i].0@, table@[i].1 as int));
    let start = vec![board];
    assert(ints(start@) =~= seq![board as int]);
    let groups = descend_exec(nodes, &start, "elements");
    let elems = descend_exec(nodes, &groups, "element");
    let ghost ev = ints(elems@);
    let mut out: Vec<XmlFootprintPlan> = Vec::new();
    let mut i: usize = 0;
    while i < elems.len()
        invariant
            i <= elems@.len(),
            nv == nodes_view(nodes@),
            ev == ints(elems@),
            ev == elements_of(nv, board as int),
            entries == Seq::new(table@.len(), |j: int| (table@[j].0@, table@[j].1 as int)),
            entries == package_entries(nv, libraries(nv, board as int)),
            forall|j: int| 0 <= j < elems@.len() ==> #[trigger] elems@[j] < nodes@.len(),
            forall|j: int| 0 <= j < table@.len() ==> #[trigger] table@[j].1 < nodes@.len(),
            footprints_view(out@) =~= Seq::new(i as nat, |t: int| element_spec(nv, entries, ev[t])),
        decreases elems@.len() - i,
    {
        let ghost before = footprints_view(out@);
        let f = element_exec(nodes, &table, elems[i]);
        let ghost fv = f@;
        out.push(f);
        assert(footprints_view(out@) =~= before.push(fv));
        i += 1;
    }
    out
}

} // verus!
