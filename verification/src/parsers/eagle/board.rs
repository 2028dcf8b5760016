//! What an Eagle XML board holds among its plain drawings and its signals,
//! with every length kept as the attribute's decimal text (millimetres, y
//! axis up); layer numbers are read as numbers.
use vstd::prelude::*;

use super::xml::{
    attr_of, attribute, children, children_of, first_named, first_named_from, has_name, nodes_view, read_xml,
    xml_nodes, XmlNode, XmlNodeView,
};
use super::elements::{elements_spec, footprints_view, parse_elements, XmlFootprintPlan};
use crate::error::ExtractError;
use crate::parsers::eagle_binary::{layer_cat_spec, LayerCat};
use crate::parsers::eagle::{categorize_eagle_layer, EagleLayerCat};
use crate::text::{chars_of, parse_unsigned, parse_unsigned_exec, push_str, to_string};
use crate::ExtractOptions;

verus! {

/// A drawn or copper shape with its dimensions as attribute text.
#[derive(Debug, Clone, PartialEq)]
pub enum XmlShape {
    Wire { x1: Option<String>, y1: Option<String>, x2: Option<String>, y2: Option<String>, width: Option<String> },
    Circle { x: Option<String>, y: Option<String>, radius: Option<String>, width: Option<String> },
    Rect { x1: Option<String>, y1: Option<String>, x2: Option<String>, y2: Option<String> },
    /// A via; without a diameter it is twice as wide as its drill.
    Via { x: Option<String>, y: Option<String>, drill: Option<String>, diameter: Option<String> },
}

pub type Text = Option<Seq<char>>;

pub enum XmlShapeView {
    Wire { x1: Text, y1: Text, x2: Text, y2: Text, width: Text },
    Circle { x: Text, y: Text, radius: Text, width: Text },
    Rect { x1: Text, y1: Text, x2: Text, y2: Text },
    Via { x: Text, y: Text, drill: Text, diameter: Text },
}

pub open spec fn tv(o: Option<String>) -> Text {
    match o {
        Some(s) => Some(s@),
        None => None,
    }
}

impl View for XmlShape {
    type V = XmlShapeView;

    open spec fn view(&self) -> XmlShapeView {
        match self {
            XmlShape::Wire { x1, y1, x2, y2, width } => XmlShapeView::Wire {
                x1: tv(*x1),
                y1: tv(*y1),
                x2: tv(*x2),
                y2: tv(*y2),
                width: tv(*width),
            },
            XmlShape::Circle { x, y, radius, width } => XmlShapeView::Circle {
                x: tv(*x),
                y: tv(*y),
                radius: tv(*radius),
                width: tv(*width),
            },
            XmlShape::Rect { x1, y1, x2, y2 } => XmlShapeView::Rect { x1: tv(*x1), y1: tv(*y1), x2: tv(*x2), y2: tv(*y2) },
            XmlShape::Via { x, y, drill, diameter } => XmlShapeView::Via {
                x: tv(*x),
                y: tv(*y),
                drill: tv(*drill),
                diameter: tv(*diameter),
            },
        }
    }
}

pub open spec fn shapes_view(v: Seq<XmlShape>) -> Seq<XmlShapeView> {
    Seq::new(v.len(), |i: int| v[i]@)
}

/// Attribute `a` of node `k`.
pub open spec fn at(nv: Seq<XmlNodeView>, k: int, a: Seq<char>) -> Text {
    attr_of(nv[k].attributes, a)
}

/// The layer number of node `k`: its `layer` attribute read as a `u32`, or 0.
pub open spec fn layer_at(nv: Seq<XmlNodeView>, k: int) -> nat {
    match at(nv, k, "layer"@) {
        Some(v) => match parse_unsigned(v, u32::MAX as int) {
            Some(n) => n,
            None => 0,
        },
        None => 0,
    }
}

pub open spec fn wire_at(nv: Seq<XmlNodeView>, k: int) -> XmlShapeView {
    XmlShapeView::Wire {
        x1: at(nv, k, "x1"@),
        y1: at(nv, k, "y1"@),
        x2: at(nv, k, "x2"@),
        y2: at(nv, k, "y2"@),
        width: at(nv, k, "width"@),
    }
}

pub open spec fn circle_at(nv: Seq<XmlNodeView>, k: int) -> XmlShapeView {
    XmlShapeView::Circle { x: at(nv, k, "x"@), y: at(nv, k, "y"@), radius: at(nv, k, "radius"@), width: at(nv, k, "width"@) }
}

pub open spec fn rect_at(nv: Seq<XmlNodeView>, k: int) -> XmlShapeView {
    XmlShapeView::Rect { x1: at(nv, k, "x1"@), y1: at(nv, k, "y1"@), x2: at(nv, k, "x2"@), y2: at(nv, k, "y2"@) }
}

pub open spec fn via_at(nv: Seq<XmlNodeView>, k: int) -> XmlShapeView {
    XmlShapeView::Via { x: at(nv, k, "x"@), y: at(nv, k, "y"@), drill: at(nv, k, "drill"@), diameter: at(nv, k, "diameter"@) }
}

/// The nodes among `ks` whose tag name is `tag`, in order.
pub open spec fn named_in(nv: Seq<XmlNodeView>, ks: Seq<int>, tag: Seq<char>) -> Seq<int>
    decreases ks.len(),
{
    if ks.len() == 0 {
        seq![]
    } else {
        named_in(nv, ks.drop_last(), tag) + if nv[ks.last()].name == tag { seq![ks.last()] } else { seq![] }
    }
}

pub(crate) fn text_attr(node: &XmlNode, name: &str) -> (res: Option<String>)
    ensures
        tv(res) == attr_of(node@.attributes, name@),
{
    match attribute(node, name) {
        Some(v) => Some(v.clone()),
        None => None,
    }
}

pub(crate) fn layer_attr(node: &XmlNode) -> (res: u32)
    ensures
        res as nat == match attr_of(node@.attributes, "layer"@) {
            Some(v) => match parse_unsigned(v, u32::MAX as int) {
                Some(n) => n,
                None => 0,
            },
            None => 0,
        },
{
    match attribute(node, "layer") {
        Some(v) => match parse_unsigned_exec(&chars_of(v.as_str()), u32::MAX as u64) {
            Some(n) => n as u32,
            None => 0,
        },
        None => 0,
    }
}

pub(crate) fn named_children(nodes: &[XmlNode], i: usize, tag: &str) -> (res: Vec<usize>)
    requires
        i < nodes@.len(),
    ensures
        res@.map_values(|k: usize| k as int) == named_in(nodes_view(nodes@), children_of(nodes_view(nodes@), i as int), tag@),
        forall|j: int| 0 <= j < res@.len() ==> #[trigger] res@[j] < nodes@.len(),
{
    let ghost nv = nodes_view(nodes@);
    let ks = children(nodes, i);
    let ghost kv = ks@.map_values(|k: usize| k as int);
    let mut out: Vec<usize> = Vec::new();
    let mut t: usize = 0;
    assert(out@.map_values(|k: usize| k as int) =~= named_in(nv, kv.take(0), tag@));
    while t < ks.len()
        invariant
            t <= ks@.len(),
            nv == nodes_view(nodes@),
            kv == ks@.map_values(|k: usize| k as int),
            forall|j: int| 0 <= j < ks@.len() ==> #[trigger] ks@[j] < nodes@.len(),
            out@.map_values(|k: usize| k as int) == named_in(nv, kv.take(t as int), tag@),
            forall|j: int| 0 <= j < out@.len() ==> #[trigger] out@[j] < nodes@.len(),
        decreases ks@.len() - t,
    {
        assert(kv.take(t + 1).drop_last() =~= kv.take(t as int));
        assert(kv.take(t + 1).last() == ks@[t as int] as int);
        let k = ks[t];
        let ghost before = out@.map_values(|k: usize| k as int);
        if has_name(&nodes[k], tag) {
            out.push(k);
            assert(out@.map_values(|k: usize| k as int) =~= before + seq![k as int]);
        } else {
            assert(before + Seq::<int>::empty() =~= before);
        }
        t += 1;
    }
    assert(kv.take(ks@.len() as int) =~= kv);
    out
}

// ───────────────────────────── plain drawings ─────────────────────────────

/// Board drawings by layer group.
#[derive(Debug, Clone)]
pub struct XmlDrawings {
    pub edges: Vec<XmlShape>,
    pub silk_f: Vec<XmlShape>,
    pub silk_b: Vec<XmlShape>,
    pub fab_f: Vec<XmlShape>,
    pub fab_b: Vec<XmlShape>,
}

#[verifier::ext_equal]
pub struct XmlDrawingsView {
    pub edges: Seq<XmlShapeView>,
    pub silk_f: Seq<XmlShapeView>,
    pub silk_b: Seq<XmlShapeView>,
    pub fab_f: Seq<XmlShapeView>,
    pub fab_b: Seq<XmlShapeView>,
}

impl View for XmlDrawings {
    type V = XmlDrawingsView;

    open spec fn view(&self) -> XmlDrawingsView {
        XmlDrawingsView {
            edges: shapes_view(self.edges@),
            silk_f: shapes_view(self.silk_f@),
            silk_b: shapes_view(self.silk_b@),
            fab_f: shapes_view(self.fab_f@),
            fab_b: shapes_view(self.fab_b@),
        }
    }
}

/// `acc` with a drawing on `layer` added to its group; layers of other
/// categories keep no board drawings.
pub open spec fn file_drawing(acc: XmlDrawingsView, layer: nat, s: XmlShapeView) -> XmlDrawingsView {
    match layer_cat_spec(layer as int) {
        LayerCat::Edge => XmlDrawingsView { edges: acc.edges.push(s), ..acc },
        LayerCat::SilkF => XmlDrawingsView { silk_f: acc.silk_f.push(s), ..acc },
        LayerCat::SilkB => XmlDrawingsView { silk_b: acc.silk_b.push(s), ..acc },
        LayerCat::FabF => XmlDrawingsView { fab_f: acc.fab_f.push(s), ..acc },
        LayerCat::FabB => XmlDrawingsView { fab_b: acc.fab_b.push(s), ..acc },
        _ => acc,
    }
}

/// `acc` with the plain child `k`: a wire, circle or rectangle; other
/// children draw nothing.
pub open spec fn plain_item(acc: XmlDrawingsView, nv: Seq<XmlNodeView>, k: int) -> XmlDrawingsView {
    let name = nv[k].name;
    if name == "wire"@ {
        file_drawing(acc, layer_at(nv, k), wire_at(nv, k))
    } else if name == "circle"@ {
        file_drawing(acc, layer_at(nv, k), circle_at(nv, k))
    } else if name == "rectangle"@ {
        file_drawing(acc, layer_at(nv, k), rect_at(nv, k))
    } else {
        acc
    }
}

pub open spec fn plain_items(acc: XmlDrawingsView, nv: Seq<XmlNodeView>, ks: Seq<int>) -> XmlDrawingsView
    decreases ks.len(),
{
    if ks.len() == 0 {
        acc
    } else {
        plain_item(plain_items(acc, nv, ks.drop_last()), nv, ks.last())
    }
}

pub open spec fn plain_groups(acc: XmlDrawingsView, nv: Seq<XmlNodeView>, ps: Seq<int>) -> XmlDrawingsView
    decreases ps.len(),
{
    if ps.len() == 0 {
        acc
    } else {
        let prev = plain_groups(acc, nv, ps.drop_last());
        plain_items(prev, nv, children_of(nv, ps.last()))
    }
}

pub open spec fn no_xml_drawings() -> XmlDrawingsView {
    XmlDrawingsView { edges: seq![], silk_f: seq![], silk_b: seq![], fab_f: seq![], fab_b: seq![] }
}

/// The board's plain drawings: the children of each `plain` child of the
/// board, in order.
pub open spec fn plain_spec(nv: Seq<XmlNodeView>, board: int) -> XmlDrawingsView {
    plain_groups(no_xml_drawings(), nv, named_in(nv, children_of(nv, board), "plain"@))
}

fn file_drawing_exec(d: &mut XmlDrawings, layer: u32, s: XmlShape)
    ensures
        final(d)@ == file_drawing(old(d)@, layer as nat, s@),
{
    let ghost before = old(d)@;
    let ghost sv = s@;
    match categorize_eagle_layer(layer) {
        EagleLayerCat::Edge => {
            d.edges.push(s);
            assert(shapes_view(d.edges@) =~= before.edges.push(sv));
        },
        EagleLayerCat::SilkF => {
            d.silk_f.push(s);
            assert(shapes_view(d.silk_f@) =~= before.silk_f.push(sv));
        },
        EagleLayerCat::SilkB => {
            d.silk_b.push(s);
            assert(shapes_view(d.silk_b@) =~= before.silk_b.push(sv));
        },
        EagleLayerCat::FabF => {
            d.fab_f.push(s);
            assert(shapes_view(d.fab_f@) =~= before.fab_f.push(sv));
        },
        EagleLayerCat::FabB => {
            d.fab_b.push(s);
            assert(shapes_view(d.fab_b@) =~= before.fab_b.push(sv));
        },
        _ => {},
    }
    assert(d@ =~= file_drawing(before, layer as nat, sv));
}

pub(crate) fn wire_exec(node: &XmlNode) -> (res: XmlShape)
    ensures
        res@ == (XmlShapeView::Wire {
            x1: attr_of(node@.attributes, "x1"@),
            y1: attr_of(node@.attributes, "y1"@),
            x2: attr_of(node@.attributes, "x2"@),
            y2: attr_of(node@.attributes, "y2"@),
            width: attr_of(node@.attributes, "width"@),
        }),
{
    XmlShape::Wire {
        x1: text_attr(node, "x1"),
        y1: text_attr(node, "y1"),
        x2: text_attr(node, "x2"),
        y2: text_attr(node, "y2"),
        width: text_attr(node, "width"),
    }
}

/// Reads the board's plain drawings (outline, silkscreen, fabrication).
pub fn parse_plain(nodes: &[XmlNode], board: usize) -> (res: XmlDrawings)
    requires
        board < nodes@.len(),
    ensures
        res@ == plain_spec(nodes_view(nodes@), board as int),
{
    let ghost nv = nodes_view(nodes@);
    let mut d = XmlDrawings { edges: Vec::new(), silk_f: Vec::new(), silk_b: Vec::new(), fab_f: Vec::new(), fab_b: Vec::new() };
    assert(d@ =~= no_xml_drawings());
    let plains = named_children(nodes, board, "plain");
    let ghost pv = plains@.map_values(|k: usize| k as int);
    let mut p: usize = 0;
    assert(pv.take(0) =~= Seq::<int>::empty());
    while p < plains.len()
        invariant
            p <= plains@.len(),
            nv == nodes_view(nodes@),
            pv == plains@.map_values(|k: usize| k as int),
            pv == named_in(nv, children_of(nv, board as int), "plain"@),
            forall|j: int| 0 <= j < plains@.len() ==> #[trigger] plains@[j] < nodes@.len(),
            d@ == plain_groups(no_xml_drawings(), nv, pv.take(p as int)),
        decreases plains@.len() - p,
    {
        assert(pv.take(p + 1).drop_last() =~= pv.take(p as int));
        assert(pv.take(p + 1).last() == plains@[p as int] as int);
        let ghost start = d@;
        let kids = children(nodes, plains[p]);
        let ghost kv = kids@.map_values(|k: usize| k as int);
        let mut t: usize = 0;
        assert(kv.take(0) =~= Seq::<int>::empty());
        while t < kids.len()
            invariant
                t <= kids@.len(),
                nv == nodes_view(nodes@),
                kv == kids@.map_values(|k: usize| k as int),
                forall|j: int| 0 <= j < kids@.len() ==> #[trigger] kids@[j] < nodes@.len(),
                d@ == plain_items(start, nv, kv.take(t as int)),
            decreases kids@.len() - t,
        {
            assert(kv.take(t + 1).drop_last() =~= kv.take(t as int));
            assert(kv.take(t + 1).last() == kids@[t as int] as int);
            let node = &nodes[kids[t]];
            assert(nv[kids@[t as int] as int] == node@);
            if has_name(node, "wire") {
                file_drawing_exec(&mut d, layer_attr(node), wire_exec(node));
            } else if has_name(node, "circle") {
                let s = XmlShape::Circle {
                    x: text_attr(node, "x"),
                    y: text_attr(node, "y"),
                    radius: text_attr(node, "radius"),
                    width: text_attr(node, "width"),
                };
                file_drawing_exec(&mut d, layer_attr(node), s);
            } else if has_name(node, "rectangle") {
                let s = XmlShape::Rect {
                    x1: text_attr(node, "x1"),
                    y1: text_attr(node, "y1"),
                    x2: text_attr(node, "x2"),
                    y2: text_attr(node, "y2"),
                };
                file_drawing_exec(&mut d, layer_attr(node), s);
            }
            t += 1;
        }
        assert(kv.take(kids@.len() as int) =~= kv);
        p += 1;
    }
    assert(pv.take(plains@.len() as int) =~= pv);
    d
}

// ───────────────────────────── signals ─────────────────────────────

/// A piece of copper of a net.
#[derive(Debug, Clone)]
pub struct XmlTrack {
    pub shape: XmlShape,
    pub net: Option<String>,
}

/// A copper pour of a net: its outline's vertices as attribute text.
#[derive(Debug, Clone)]
pub struct XmlZone {
    pub width: Option<String>,
    pub vertices: Vec<(Option<String>, Option<String>)>,
    pub net: Option<String>,
}

/// The copper of the board's signals by side.
#[derive(Debug, Clone)]
pub struct XmlSignals {
    pub front: Vec<XmlTrack>,
    pub back: Vec<XmlTrack>,
    pub zones_front: Vec<XmlZone>,
    pub zones_back: Vec<XmlZone>,
}

pub struct XmlZoneView {
    pub width: Text,
    pub vertices: Seq<(Text, Text)>,
    pub net: Text,
}

pub open spec fn tracks_view(v: Seq<XmlTrack>) -> Seq<(XmlShapeView, Text)> {
    Seq::new(v.len(), |i: int| (v[i].shape@, tv(v[i].net)))
}

pub open spec fn vertices_view(v: Seq<(Option<String>, Option<String>)>) -> Seq<(Text, Text)> {
    Seq::new(v.len(), |i: int| (tv(v[i].0), tv(v[i].1)))
}

pub open spec fn zones_view(v: Seq<XmlZone>) -> Seq<XmlZoneView> {
    Seq::new(v.len(), |i: int| XmlZoneView { width: tv(v[i].width), vertices: vertices_view(v[i].vertices@), net: tv(v[i].net) })
}

#[verifier::ext_equal]
pub struct XmlSignalsView {
    pub front: Seq<(XmlShapeView, Text)>,
    pub back: Seq<(XmlShapeView, Text)>,
    pub zones_front: Seq<XmlZoneView>,
    pub zones_back: Seq<XmlZoneView>,
}

impl View for XmlSignals {
    type V = XmlSignalsView;

    open spec fn view(&self) -> XmlSignalsView {
        XmlSignalsView {
            front: tracks_view(self.front@),
            back: tracks_view(self.back@),
            zones_front: zones_view(self.zones_front@),
            zones_back: zones_view(self.zones_back@),
        }
    }
}

/// The net of a signal: its `name`, when not empty.
pub open spec fn net_of(nv: Seq<XmlNodeView>, k: int) -> Text {
    match at(nv, k, "name"@) {
        Some(n) => if n.len() > 0 { Some(n) } else { None },
        None => None,
    }
}

/// The vertices of a polygon: its `vertex` children's `x` and `y`.
pub open spec fn polygon_vertices(nv: Seq<XmlNodeView>, k: int) -> Seq<(Text, Text)> {
    let vs = named_in(nv, children_of(nv, k), "vertex"@);
    Seq::new(vs.len(), |i: int| (at(nv, vs[i], "x"@), at(nv, vs[i], "y"@)))
}

/// `acc` with the signal child `k` of net `net`: a wire goes to the side of
/// its copper layer, a via to both sides, and a polygon of at least three
/// vertices on a copper layer becomes a zone of that side.
pub open spec fn signal_item(acc: XmlSignalsView, nv: Seq<XmlNodeView>, k: int, net: Text) -> XmlSignalsView {
    let name = nv[k].name;
    if name == "wire"@ {
        let t = (wire_at(nv, k), net);
        match layer_cat_spec(layer_at(nv, k) as int) {
            LayerCat::CopperF => XmlSignalsView { front: acc.front.push(t), ..acc },
            LayerCat::CopperB => XmlSignalsView { back: acc.back.push(t), ..acc },
            _ => acc,
        }
    } else if name == "via"@ {
        let t = (via_at(nv, k), net);
        XmlSignalsView { front: acc.front.push(t), back: acc.back.push(t), ..acc }
    } else if name == "polygon"@ {
        let ring = polygon_vertices(nv, k);
        if ring.len() < 3 {
            acc
        } else {
            let z = XmlZoneView { width: at(nv, k, "width"@), vertices: ring, net };
            match layer_cat_spec(layer_at(nv, k) as int) {
                LayerCat::CopperF => XmlSignalsView { zones_front: acc.zones_front.push(z), ..acc },
                LayerCat::CopperB => XmlSignalsView { zones_back: acc.zones_back.push(z), ..acc },
                _ => acc,
            }
        }
    } else {
        acc
    }
}

pub open spec fn signal_items(acc: XmlSignalsView, nv: Seq<XmlNodeView>, ks: Seq<int>, net: Text) -> XmlSignalsView
    decreases ks.len(),
{
    if ks.len() == 0 {
        acc
    } else {
        signal_item(signal_items(acc, nv, ks.drop_last(), net), nv, ks.last(), net)
    }
}

pub open spec fn signal_list(acc: XmlSignalsView, nv: Seq<XmlNodeView>, ss: Seq<int>) -> XmlSignalsView
    decreases ss.len(),
{
    if ss.len() == 0 {
        acc
    } else {
        let prev = signal_list(acc, nv, ss.drop_last());
        signal_items(prev, nv, children_of(nv, ss.last()), net_of(nv, ss.last()))
    }
}

pub open spec fn signal_groups(acc: XmlSignalsView, nv: Seq<XmlNodeView>, gs: Seq<int>) -> XmlSignalsView
    decreases gs.len(),
{
    if gs.len() == 0 {
        acc
    } else {
        let prev = signal_groups(acc, nv, gs.drop_last());
        signal_list(prev, nv, named_in(nv, children_of(nv, gs.last()), "signal"@))
    }
}

pub open spec fn no_signals() -> XmlSignalsView {
    XmlSignalsView { front: seq![], back: seq![], zones_front: seq![], zones_back: seq![] }
}

/// The copper of the board: every `signal` of every `signals` child of the
/// board, in order.
pub open spec fn signals_spec(nv: Seq<XmlNodeView>, board: int) -> XmlSignalsView {
    signal_groups(no_signals(), nv, named_in(nv, children_of(nv, board), "signals"@))
}

fn vertices_exec(nodes: &[XmlNode], k: usize) -> (res: Vec<(Option<String>, Option<String>)>)
    requires
        k < nodes@.len(),
    ensures
        vertices_view(res@) == polygon_vertices(nodes_view(nodes@), k as int),
{
    let ghost nv = nodes_view(nodes@);
    let vs = named_children(nodes, k, "vertex");
    let ghost vv = vs@.map_values(|k: usize| k as int);
    let mut out: Vec<(Option<String>, Option<String>)> = Vec::new();
    let mut i: usize = 0;
    while i < vs.len()
        invariant
            i <= vs@.len(),
            nv == nodes_view(nodes@),
            vv == vs@.map_values(|k: usize| k as int),
            vv == named_in(nv, children_of(nv, k as int), "vertex"@),
            forall|j: int| 0 <= j < vs@.len() ==> #[trigger] vs@[j] < nodes@.len(),
            vertices_view(out@) =~= Seq::new(i as nat, |t: int| (at(nv, vv[t], "x"@), at(nv, vv[t], "y"@))),
        decreases vs@.len() - i,
    {
        let node = &nodes[vs[i]];
        assert(nv[vv[i as int]] == node@);
        let ghost before = vertices_view(out@);
        let pair = (text_attr(node, "x"), text_attr(node, "y"));
        out.push(pair);
        assert(vertices_view(out@) =~= before.push((at(nv, vv[i as int], "x"@), at(nv, vv[i as int], "y"@))));
        i += 1;
    }
    out
}

fn via_exec(node: &XmlNode) -> (res: XmlShape)
    ensures
        res@ == (XmlShapeView::Via {
            x: attr_of(node@.attributes, "x"@),
            y: attr_of(node@.attributes, "y"@),
            drill: attr_of(node@.attributes, "drill"@),
            diameter: attr_of(node@.attributes, "diameter"@),
        }),
{
    XmlShape::Via {
        x: text_attr(node, "x"),
        y: text_attr(node, "y"),
        drill: text_attr(node, "drill"),
        diameter: text_attr(node, "diameter"),
    }
}

fn net_exec(node: &XmlNode) -> (res: Option<String>)
    ensures
        tv(res) == match attr_of(node@.attributes, "name"@) {
            Some(n) => if n.len() > 0 { Some(n) } else { None },
            None => None,
        },
{
    match attribute(node, "name") {
        Some(n) => {
            if chars_of(n.as_str()).len() > 0 {
                Some(n.clone())
            } else {
                None
            }
        },
        None => None,
    }
}

fn signal_item_exec(sig: &mut XmlSignals, nodes: &[XmlNode], k: usize, net: &Option<String>)
    requires
        k < nodes@.len(),
    ensures
        final(sig)@ == signal_item(old(sig)@, nodes_view(nodes@), k as int, tv(*net)),
{
    let ghost nv = nodes_view(nodes@);
    let ghost before = old(sig)@;
    let node = &nodes[k];
    assert(nv[k as int] == node@);
    if has_name(node, "wire") {
        let t = XmlTrack { shape: wire_exec(node), net: net.clone() };
        let ghost t_v = (t.shape@, tv(t.net));
        match categorize_eagle_layer(layer_attr(node)) {
            EagleLayerCat::CopperF => {
                sig.front.push(t);
                assert(tracks_view(sig.front@) =~= before.front.push(t_v));
            },
            EagleLayerCat::CopperB => {
                sig.back.push(t);
                assert(tracks_view(sig.back@) =~= before.back.push(t_v));
            },
            _ => {},
        }
    } else if has_name(node, "via") {
        let ghost t_v = (via_at(nv, k as int), tv(*net));
        sig.front.push(XmlTrack { shape: via_exec(node), net: net.clone() });
        sig.back.push(XmlTrack { shape: via_exec(node), net: net.clone() });
        assert(tracks_view(sig.front@) =~= before.front.push(t_v));
        assert(tracks_view(sig.back@) =~= before.back.push(t_v));
    } else if has_name(node, "polygon") {
        let ring = vertices_exec(nodes, k);
        if ring.len() >= 3 {
            let z = XmlZone { width: text_attr(node, "width"), vertices: ring, net: net.clone() };
            let ghost zv = XmlZoneView { width: tv(z.width), vertices: vertices_view(z.vertices@), net: tv(z.net) };
            match categorize_eagle_layer(layer_attr(node)) {
                EagleLayerCat::CopperF => {
                    sig.zones_front.push(z);
                    assert(zones_view(sig.zones_front@) =~= before.zones_front.push(zv));
                },
                EagleLayerCat::CopperB => {
                    sig.zones_back.push(z);
                    assert(zones_view(sig.zones_back@) =~= before.zones_back.push(zv));
                },
                _ => {},
            }
        }
    }
    assert(sig@ =~= signal_item(before, nv, k as int, tv(*net)));
}

/// Reads the copper of the board's signals.
pub fn parse_signals(nodes: &[XmlNode], board: usize) -> (res: XmlSignals)
    requires
        board < nodes@.len(),
    ensures
        res@ == signals_spec(nodes_view(nodes@), board as int),
{
    let ghost nv = nodes_view(nodes@);
    let mut sig = XmlSignals { front: Vec::new(), back: Vec::new(), zones_front: Vec::new(), zones_back: Vec::new() };
    assert(sig@ =~= no_signals());
    let groups = named_children(nodes, board, "signals");
    let ghost gv = groups@.map_values(|k: usize| k as int);
    let mut g: usize = 0;
    assert(gv.take(0) =~= Seq::<int>::empty());
    while g < groups.len()
        invariant
            g <= groups@.len(),
            nv == nodes_view(nodes@),
            gv == groups@.map_values(|k: usize| k as int),
            forall|j: int| 0 <= j < groups@.len() ==> #[trigger] groups@[j] < nodes@.len(),
            sig@ == signal_groups(no_signals(), nv, gv.take(g as int)),
        decreases groups@.len() - g,
    {
        assert(gv.take(g + 1).drop_last() =~= gv.take(g as int));
        assert(gv.take(g + 1).last() == groups@[g as int] as int);
        let ghost start = sig@;
        let signals = named_children(nodes, groups[g], "signal");
        let ghost sv = signals@.map_values(|k: usize| k as int);
        let mut s: usize = 0;
        assert(sv.take(0) =~= Seq::<int>::empty());
        while s < signals.len()
            invariant
                s <= signals@.len(),
                nv == nodes_view(nodes@),
                sv == signals@.map_values(|k: usize| k as int),
                forall|j: int| 0 <= j < signals@.len() ==> #[trigger] signals@[j] < nodes@.len(),
                sig@ == signal_list(start, nv, sv.take(s as int)),
            decreases signals@.len() - s,
        {
            assert(sv.take(s + 1).drop_last() =~= sv.take(s as int));
            assert(sv.take(s + 1).last() == signals@[s as int] as int);
            let si = signals[s];
            assert(nv[si as int] == nodes@[si as int]@);
            let net = net_exec(&nodes[si]);
            let ghost mid = sig@;
            let kids = children(nodes, si);
            let ghost kv = kids@.map_values(|k: usize| k as int);
            let mut t: usize = 0;
            assert(kv.take(0) =~= Seq::<int>::empty());
            while t < kids.len()
                invariant
                    t <= kids@.len(),
                    nv == nodes_view(nodes@),
                    kv == kids@.map_values(|k: usize| k as int),
                    forall|j: int| 0 <= j < kids@.len() ==> #[trigger] kids@[j] < nodes@.len(),
                    sig@ == signal_items(mid, nv, kv.take(t as int), tv(net)),
                decreases kids@.len() - t,
            {
                assert(kv.take(t + 1).drop_last() =~= kv.take(t as int));
                assert(kv.take(t + 1).last() == kids@[t as int] as int);
                signal_item_exec(&mut sig, nodes, kids[t], &net);
                t += 1;
            }
            assert(kv.take(kids@.len() as int) =~= kv);
            s += 1;
        }
        assert(sv.take(signals@.len() as int) =~= sv);
        g += 1;
    }
    assert(gv.take(groups@.len() as int) =~= gv);
    sig
}

// ───────────────────────────── the board ─────────────────────────────

/// Tracks and vias by side.
#[derive(Debug, Clone)]
pub struct XmlTracks {
    pub front: Vec<XmlTrack>,
    pub back: Vec<XmlTrack>,
}

/// Copper pours by side.
#[derive(Debug, Clone)]
pub struct XmlZones {
    pub front: Vec<XmlZone>,
    pub back: Vec<XmlZone>,
}

/// What an Eagle XML board yields: its plain drawings, its components, and
/// its copper when
/// tracks were asked for (pours only when there are any).
#[derive(Debug, Clone)]
pub struct XmlBoard {
    pub drawings: XmlDrawings,
    /// The placed components, as [`parse_elements`] reads them.
    pub footprints: Vec<XmlFootprintPlan>,
    pub tracks: Option<XmlTracks>,
    pub zones: Option<XmlZones>,
}

/// The board that the XML text `text` holds, as [`read_xml_board`] reads it.
pub open spec fn xml_board_spec(text: Seq<char>, include_tracks: bool, res: Result<XmlBoard, ExtractError>) -> bool {
    match xml_nodes(text) {
        Err(e) => res matches Err(ExtractError::ParseError(m)) && m@ == "XML parse error: "@ + e,
        Ok(nv) => match first_named_from(nv, "board"@, 0) {
            None => res matches Err(ExtractError::ParseError(m)) && m@ == "No <board> element found"@,
            Some(b) => {
                let sig = signals_spec(nv, b);
                &&& res matches Ok(board)
                &&& board.drawings@ == plain_spec(nv, b)
                &&& footprints_view(board.footprints@) == elements_spec(nv, b)
                &&& match board.tracks {
                    Some(t) => include_tracks && tracks_view(t.front@) == sig.front && tracks_view(t.back@) == sig.back,
                    None => !include_tracks,
                }
                &&& match board.zones {
                    Some(z) => include_tracks && !(sig.zones_front.len() == 0 && sig.zones_back.len() == 0)
                        && zones_view(z.front@) == sig.zones_front && zones_view(z.back@) == sig.zones_back,
                    None => !include_tracks || (sig.zones_front.len() == 0 && sig.zones_back.len() == 0),
                }
            },
        },
    }
}

/// Reads an Eagle XML board: the first `board` element's plain drawings and
/// components, and its signals' copper when `opts` asks for tracks.
pub fn read_xml_board(text: &str, opts: &ExtractOptions) -> (res: Result<XmlBoard, ExtractError>)
    ensures
        xml_board_spec(text@, opts.include_tracks, res),
{
    let nodes = match read_xml(text) {
        Ok(n) => n,
        Err(e) => {
            let mut m = to_string("XML parse error: ");
            push_str(&mut m, e.as_str());
            return Err(ExtractError::ParseError(m));
        },
    };
    let board = match first_named(&nodes, "board") {
        Some(b) => b,
        None => return Err(ExtractError::ParseError(to_string("No <board> element found"))),
    };
    assert(board < nodes@.len()) by {
        lemma_first_named_in_range(nodes_view(nodes@), "board"@, 0);
    }
    let drawings = parse_plain(&nodes, board);
    let footprints = parse_elements(&nodes, board);
    if !opts.include_tracks {
        return Ok(XmlBoard { drawings, footprints, tracks: None, zones: None });
    }
    let sig = parse_signals(&nodes, board);
    let zones = if sig.zones_front.len() == 0 && sig.zones_back.len() == 0 {
        None
    } else {
        Some(XmlZones { front: sig.zones_front, back: sig.zones_back })
    };
    Ok(XmlBoard { drawings, footprints, tracks: Some(XmlTracks { front: sig.front, back: sig.back }), zones })
}

proof fn lemma_first_named_in_range(nv: Seq<XmlNodeView>, tag: Seq<char>, k: int)
    requires
        k >= 0,
    ensures
        first_named_from(nv, tag, k) matches Some(i) ==> k <= i < nv.len(),
    decreases nv.len() - k,
{
    if k < nv.len() && nv[k].name != tag {
        lemma_first_named_in_range(nv, tag, k + 1);
    }
}

} // verus!
