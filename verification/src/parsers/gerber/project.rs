//! A set of fabrication files read one layer per file: the layers of one
//! source with their diagnostics, and a project that keeps every layer in
//! back-to-front stacking order with the board's bounds. A layer's geometry
//! is whatever its reader drew; the project carries it along and reads only
//! how many drawings it has and their bounds, in nanometres.
use vstd::prelude::*;
use vstd::multiset::Multiset;

use super::layers::{kind_function, kind_side, kind_stack_order, GerberLayerType, LayerFunction, LayerKind, LayerSide};
use super::{
    diagnostic, diagnostic_spec, lemma_insert_keeps_stack_order, lines_view, stack_position, stack_sorted, FileError,
};
use crate::error::{error_text, ExtractError};
use crate::parsers::gdsii::tile::{box_contains, expanded, lemma_expand_holds_point, WorldBox};
use crate::text::to_string;

verus! {

/// One fabrication file read as a layer.
#[derive(Debug, Clone)]
pub struct GerberLayer<G> {
    /// Source file name, including any directory path inside an archive.
    pub name: String,
    pub layer_type: GerberLayerType,
    pub function: LayerFunction,
    pub side: Option<LayerSide>,
    /// Inner copper layer name (`In1`, `In2`, ...) for inner copper layers.
    pub inner: Option<String>,
    /// The geometry its reader drew.
    pub geometry: G,
    /// How many dark-polarity drawings the geometry holds.
    pub drawings: usize,
    /// How many clear-polarity (`%LPC%`) drawings the geometry holds.
    pub clear_drawings: usize,
    /// Bounds of the dark geometry in nanometres; none when there is none.
    pub bbox: Option<WorldBox>,
}

impl<G> GerberLayer<G> {
    /// A layer of the given type: its function, side and inner name follow
    /// from the type.
    pub fn new(
        name: &str,
        layer_type: GerberLayerType,
        geometry: G,
        drawings: usize,
        clear_drawings: usize,
        bbox: Option<WorldBox>,
    ) -> (res: Self)
        ensures
            res.name@ == name@,
            res.layer_type == layer_type,
            res.function == kind_function(layer_type@),
            res.side == kind_side(layer_type@),
            match layer_type@ {
                LayerKind::CopperInner(n) => res.inner matches Some(s) && s@ == n,
                _ => res.inner is None,
            },
            res.geometry == geometry,
            res.drawings == drawings,
            res.clear_drawings == clear_drawings,
            res.bbox == bbox,
    {
        let inner = match layer_type.inner_name() {
            Some(s) => Some(to_string(s)),
            None => None,
        };
        GerberLayer {
            name: to_string(name),
            function: layer_type.function(),
            side: layer_type.side(),
            inner,
            layer_type,
            geometry,
            drawings,
            clear_drawings,
            bbox,
        }
    }
}

// ───────────────────────────── one source ─────────────────────────────

/// The layers and diagnostics of one source, each diagnostic a line
/// `"<file>: <reason>"`.
#[derive(Debug)]
pub struct ParsedSource<G> {
    pub layers: Vec<GerberLayer<G>>,
    /// Files that look like fabrication data but failed, and layers whose
    /// function could not be identified.
    pub warnings: Vec<String>,
    /// Files that are not fabrication data or have nothing to draw.
    pub skipped: Vec<String>,
}

/// What reading one file adds to a source: a layer without any drawing is
/// skipped ("no geometry"); any other layer is kept, with a warning when its
/// function is unknown; a file that is no fabrication data is skipped with
/// its reason; an invalid one is warned about with its error.
pub open spec fn file_added<G>(
    layers: Seq<GerberLayer<G>>,
    warnings: Seq<Seq<char>>,
    skipped: Seq<Seq<char>>,
    name: Seq<char>,
    outcome: Result<GerberLayer<G>, FileError>,
) -> (Seq<GerberLayer<G>>, Seq<Seq<char>>, Seq<Seq<char>>) {
    match outcome {
        Ok(l) => if l.drawings == 0 && l.clear_drawings == 0 {
            (layers, warnings, skipped.push(diagnostic_spec(name, "no geometry"@)))
        } else if l.layer_type@ is Unknown {
            (layers.push(l), warnings.push(diagnostic_spec(name, "could not identify layer function"@)), skipped)
        } else {
            (layers.push(l), warnings, skipped)
        },
        Err(FileError::NotFabricationData(r)) => (layers, warnings, skipped.push(diagnostic_spec(name, r@))),
        Err(FileError::Invalid(e)) => (layers, warnings.push(diagnostic_spec(name, error_text(e))), skipped),
    }
}

impl<G> ParsedSource<G> {
    /// A source with nothing read yet.
    pub fn new() -> (res: Self)
        ensures
            res.layers@.len() == 0,
            res.warnings@.len() == 0,
            res.skipped@.len() == 0,
    {
        ParsedSource { layers: Vec::new(), warnings: Vec::new(), skipped: Vec::new() }
    }

    /// Adds a warning line for a file.
    pub fn warn(&mut self, name: &str, reason: &str)
        ensures
            lines_view(final(self).warnings@) == lines_view(old(self).warnings@).push(diagnostic_spec(name@, reason@)),
            final(self).skipped@ == old(self).skipped@,
            final(self).layers@ == old(self).layers@,
    {
        let line = diagnostic(name, reason);
        self.warnings.push(line);
        assert(lines_view(self.warnings@) =~= lines_view(old(self).warnings@).push(diagnostic_spec(name@, reason@)));
    }

    /// Adds a skip line for a file.
    pub fn skip(&mut self, name: &str, reason: &str)
        ensures
            lines_view(final(self).skipped@) == lines_view(old(self).skipped@).push(diagnostic_spec(name@, reason@)),
            final(self).warnings@ == old(self).warnings@,
            final(self).layers@ == old(self).layers@,
    {
        let line = diagnostic(name, reason);
        self.skipped.push(line);
        assert(lines_view(self.skipped@) =~= lines_view(old(self).skipped@).push(diagnostic_spec(name@, reason@)));
    }

    /// Adds what reading the file `name` gave, as [`file_added`] states.
    pub fn add_file(&mut self, name: &str, outcome: Result<GerberLayer<G>, FileError>)
        ensures
            (final(self).layers@, lines_view(final(self).warnings@), lines_view(final(self).skipped@)) == file_added(
                old(self).layers@,
                lines_view(old(self).warnings@),
                lines_view(old(self).skipped@),
                name@,
                outcome,
            ),
    {
        match outcome {
            Ok(layer) => {
                if layer.drawings == 0 && layer.clear_drawings == 0 {
                    self.skip(name, "no geometry");
                } else {
                    match layer.layer_type {
                        GerberLayerType::Unknown => {
                            self.warn(name, "could not identify layer function");
                        },
                        _ => {},
                    }
                    self.layers.push(layer);
                }
            },
            Err(FileError::NotFabricationData(r)) => {
                self.skip(name, r);
            },
            Err(FileError::Invalid(e)) => {
                let m = e.message();
                self.warn(name, m.as_str());
            },
        }
    }
}

// ───────────────────────────── board bounds ─────────────────────────────

/// The box of a layer when it counts for the given function (any function
/// when none is given).
pub open spec fn counted_box<G>(l: GerberLayer<G>, f: Option<LayerFunction>) -> Option<WorldBox> {
    match f {
        Some(func) => if l.function == func { l.bbox } else { None },
        None => l.bbox,
    }
}

pub open spec fn empty_box() -> WorldBox {
    WorldBox { minx: i64::MAX, miny: i64::MAX, maxx: i64::MIN, maxy: i64::MIN }
}

/// The union of the counted boxes, grown corner by corner from the empty
/// box, and whether any box was counted.
pub open spec fn union_boxes<G>(ls: Seq<GerberLayer<G>>, f: Option<LayerFunction>) -> (WorldBox, bool)
    decreases ls.len(),
{
    if ls.len() == 0 {
        (empty_box(), false)
    } else {
        let prev = union_boxes(ls.drop_last(), f);
        match counted_box(ls.last(), f) {
            Some(b) => (expanded(expanded(prev.0, b.minx, b.miny), b.maxx, b.maxy), true),
            None => prev,
        }
    }
}

/// The union of the counted boxes, when there is one.
pub open spec fn union_of<G>(ls: Seq<GerberLayer<G>>, f: Option<LayerFunction>) -> Option<WorldBox> {
    let u = union_boxes(ls, f);
    if u.1 { Some(u.0) } else { None }
}

/// Board bounds for a set of layers: the outline layers' extents when
/// present, otherwise the copper layers', otherwise all geometry.
pub open spec fn board_bbox_spec<G>(ls: Seq<GerberLayer<G>>) -> Option<WorldBox> {
    match union_of(ls, Some(LayerFunction::Outline)) {
        Some(b) => Some(b),
        None => match union_of(ls, Some(LayerFunction::Copper)) {
            Some(b) => Some(b),
            None => union_of(ls, None),
        },
    }
}

fn union_exec<G>(layers: &Vec<GerberLayer<G>>, f: Option<LayerFunction>) -> (res: Option<WorldBox>)
    ensures
        res == union_of(layers@, f),
{
    let mut b = WorldBox::empty();
    let mut any = false;
    let mut i: usize = 0;
    assert(layers@.take(0) =~= Seq::<GerberLayer<G>>::empty());
    while i < layers.len()
        invariant
            i <= layers@.len(),
            (b, any) == union_boxes(layers@.take(i as int), f),
        decreases layers@.len() - i,
    {
        let l = &layers[i];
        assert(layers@.take(i + 1).drop_last() =~= layers@.take(i as int));
        assert(layers@.take(i + 1).last() == layers@[i as int]);
        let counted = match f {
            Some(func) => l.function == func,
            None => true,
        };
        if counted {
            match l.bbox {
                Some(lb) => {
                    b.expand_point(lb.minx, lb.miny);
                    b.expand_point(lb.maxx, lb.maxy);
                    any = true;
                },
                None => {},
            }
        }
        i += 1;
    }
    assert(layers@.take(i as int) =~= layers@);
    if any { Some(b) } else { None }
}

/// Board bounds for a set of layers, as [`board_bbox_spec`] states.
pub fn board_bbox<G>(layers: &Vec<GerberLayer<G>>) -> (res: Option<WorldBox>)
    ensures
        res == board_bbox_spec(layers@),
{
    match union_exec(layers, Some(LayerFunction::Outline)) {
        Some(b) => Some(b),
        None => match union_exec(layers, Some(LayerFunction::Copper)) {
            Some(b) => Some(b),
            None => union_exec(layers, None),
        },
    }
}

proof fn lemma_union_covers<G>(ls: Seq<GerberLayer<G>>, f: Option<LayerFunction>, i: int)
    requires
        0 <= i < ls.len(),
        counted_box(ls[i], f) is Some,
    ensures
        union_boxes(ls, f).1,
        ({
            let b = counted_box(ls[i], f)->0;
            &&& box_contains(union_boxes(ls, f).0, b.minx as int, b.miny as int)
            &&& box_contains(union_boxes(ls, f).0, b.maxx as int, b.maxy as int)
        }),
    decreases ls.len(),
{
    let b = counted_box(ls[i], f)->0;
    let prev = union_boxes(ls.drop_last(), f);
    if i == ls.len() - 1 {
        lemma_expand_holds_point(prev.0, b.minx, b.miny, b.minx as int, b.miny as int);
        let e = expanded(prev.0, b.minx, b.miny);
        lemma_expand_holds_point(e, b.maxx, b.maxy, b.minx as int, b.miny as int);
    } else {
        lemma_union_covers(ls.drop_last(), f, i);
        assert(ls.drop_last()[i] == ls[i]);
        match counted_box(ls.last(), f) {
            Some(c) => {
                lemma_expand_holds_point(prev.0, c.minx, c.miny, b.minx as int, b.miny as int);
                lemma_expand_holds_point(prev.0, c.minx, c.miny, b.maxx as int, b.maxy as int);
                let e = expanded(prev.0, c.minx, c.miny);
                lemma_expand_holds_point(e, c.maxx, c.maxy, b.minx as int, b.miny as int);
                lemma_expand_holds_point(e, c.maxx, c.maxy, b.maxx as int, b.maxy as int);
            },
            None => {},
        }
    }
}

/// The board bounds hold the bounds of every layer that decides them: every
/// outline layer with geometry when there is one; else every copper layer
/// with geometry when there is one; else every layer with geometry.
pub proof fn lemma_board_bbox_covers<G>(ls: Seq<GerberLayer<G>>, i: int)
    requires
        0 <= i < ls.len(),
        ls[i].bbox is Some,
    ensures
        board_bbox_spec(ls) is Some,
        ({
            let b = ls[i].bbox->0;
            let bb = board_bbox_spec(ls)->0;
            (ls[i].function == LayerFunction::Outline
                || (union_of(ls, Some(LayerFunction::Outline)) is None && ls[i].function == LayerFunction::Copper)
                || (union_of(ls, Some(LayerFunction::Outline)) is None && union_of(ls, Some(LayerFunction::Copper)) is None))
                ==> box_contains(bb, b.minx as int, b.miny as int) && box_contains(bb, b.maxx as int, b.maxy as int)
        }),
{
    lemma_union_covers(ls, None, i);
    if ls[i].function == LayerFunction::Outline {
        lemma_union_covers(ls, Some(LayerFunction::Outline), i);
    } else if union_of(ls, Some(LayerFunction::Outline)) is None && ls[i].function == LayerFunction::Copper {
        lemma_union_covers(ls, Some(LayerFunction::Copper), i);
    }
}

// ───────────────────────────── the project ─────────────────────────────

/// A set of fabrication files read independently, one layer per file.
#[derive(Debug)]
pub struct GerberProject<G> {
    /// Layers in back-to-front stacking order.
    pub layers: Vec<GerberLayer<G>>,
    /// Board bounds, as [`board_bbox`] gives them for the layers.
    pub bbox: Option<WorldBox>,
    /// Problems worth showing, from every source added.
    pub warnings: Vec<String>,
    /// Files that were passed over, from every source added.
    pub skipped: Vec<String>,
}

/// The stacking order of each layer.
pub open spec fn layer_orders<G>(ls: Seq<GerberLayer<G>>) -> Seq<u8> {
    Seq::new(ls.len(), |i: int| kind_stack_order(ls[i].layer_type@))
}

/// How many of `s` are at or below `o`: where a new layer of order `o` goes
/// in a stack sorted back to front, after every layer at or below it.
pub open spec fn le_count(s: Seq<u8>, o: u8) -> nat
    decreases s.len(),
{
    if s.len() == 0 {
        0
    } else {
        le_count(s.drop_last(), o) + if s.last() <= o { 1nat } else { 0nat }
    }
}

/// The stack with one more layer, placed after every layer whose order is at
/// or below its own.
pub open spec fn stack_insert<G>(ls: Seq<GerberLayer<G>>, l: GerberLayer<G>) -> Seq<GerberLayer<G>> {
    ls.insert(le_count(layer_orders(ls), kind_stack_order(l.layer_type@)) as int, l)
}

/// The stack with the new layers placed one after another.
pub open spec fn stack_merge<G>(ls: Seq<GerberLayer<G>>, new: Seq<GerberLayer<G>>) -> Seq<GerberLayer<G>>
    decreases new.len(),
{
    if new.len() == 0 {
        ls
    } else {
        stack_merge(stack_insert(ls, new[0]), new.drop_first())
    }
}

proof fn lemma_le_count_is_partition(s: Seq<u8>, o: u8, p: int)
    requires
        0 <= p <= s.len(),
        forall|i: int| 0 <= i < p ==> s[i] <= o,
        forall|i: int| p <= i < s.len() ==> s[i] > o,
    ensures
        le_count(s, o) == p,
    decreases s.len(),
{
    if s.len() > 0 {
        let t = s.drop_last();
        if p == s.len() {
            assert(s.last() == s[s.len() - 1]);
            lemma_le_count_is_partition(t, o, p - 1);
        } else {
            assert(s.last() == s[s.len() - 1]);
            lemma_le_count_is_partition(t, o, p);
        }
    }
}

proof fn lemma_le_count_bound(s: Seq<u8>, o: u8)
    ensures
        le_count(s, o) <= s.len(),
    decreases s.len(),
{
    if s.len() > 0 {
        lemma_le_count_bound(s.drop_last(), o);
    }
}

/// Merging a source into the stack keeps every layer: the layers after the
/// merge are the old ones and the new ones, each as often as before.
pub proof fn lemma_merge_keeps_layers<G>(ls: Seq<GerberLayer<G>>, new: Seq<GerberLayer<G>>)
    ensures
        stack_merge(ls, new).to_multiset() == ls.to_multiset().add(new.to_multiset()),
        stack_merge(ls, new).len() == ls.len() + new.len(),
    decreases new.len(),
{
    broadcast use vstd::multiset::group_multiset_axioms;
    if new.len() == 0 {
        assert(new.to_multiset() =~= Multiset::<GerberLayer<G>>::empty()) by {
            vstd::seq_lib::to_multiset_len(new);
        }
        assert(ls.to_multiset().add(new.to_multiset()) =~= ls.to_multiset());
    } else {
        let l = new[0];
        let pos = le_count(layer_orders(ls), kind_stack_order(l.layer_type@)) as int;
        lemma_le_count_bound(layer_orders(ls), kind_stack_order(l.layer_type@));
        let ins = stack_insert(ls, l);
        lemma_merge_keeps_layers(ins, new.drop_first());
        vstd::seq_lib::to_multiset_insert(ls, pos, l);
        assert(new =~= seq![l] + new.drop_first());
        vstd::seq_lib::lemma_multiset_commutative(seq![l], new.drop_first());
        assert(seq![l] =~= Seq::<GerberLayer<G>>::empty().push(l));
        vstd::seq_lib::to_multiset_build(Seq::<GerberLayer<G>>::empty(), l);
        assert(Seq::<GerberLayer<G>>::empty().to_multiset() =~= Multiset::<GerberLayer<G>>::empty()) by {
            vstd::seq_lib::to_multiset_len(Seq::<GerberLayer<G>>::empty());
        }
        assert(ls.to_multiset().insert(l).add(new.drop_first().to_multiset()) =~= ls.to_multiset().add(
            new.to_multiset(),
        ));
    }
}

impl<G> GerberProject<G> {
    /// The layers are in back-to-front stacking order.
    pub open spec fn well_formed(&self) -> bool {
        stack_sorted(layer_orders(self.layers@))
    }

    /// A project with no source yet.
    pub fn new() -> (res: Self)
        ensures
            res.well_formed(),
            res.layers@.len() == 0,
            res.bbox is None,
            res.warnings@.len() == 0,
            res.skipped@.len() == 0,
    {
        GerberProject { layers: Vec::new(), bbox: None, warnings: Vec::new(), skipped: Vec::new() }
    }

    /// Merges one source: its diagnostics are appended, each of its layers
    /// is placed after every layer of the same or a lower stacking order, and
    /// the board bounds are recomputed.
    pub fn add_source(&mut self, parsed: ParsedSource<G>)
        requires
            old(self).well_formed(),
        ensures
            final(self).well_formed(),
            final(self).layers@ == stack_merge(old(self).layers@, parsed.layers@),
            final(self).bbox == board_bbox_spec(final(self).layers@),
            final(self).warnings@ == old(self).warnings@ + parsed.warnings@,
            final(self).skipped@ == old(self).skipped@ + parsed.skipped@,
    {
        let ghost target = stack_merge(self.layers@, parsed.layers@);
        let ghost new_layers = parsed.layers@;
        let mut parsed = parsed;
        let n_new = parsed.layers.len();
        self.warnings.append(&mut parsed.warnings);
        self.skipped.append(&mut parsed.skipped);
        let ghost warnings = self.warnings@;
        let ghost skipped = self.skipped@;
        let mut orders: Vec<u8> = Vec::new();
        let mut k: usize = 0;
        while k < self.layers.len()
            invariant
                k <= self.layers@.len(),
                orders@ == layer_orders(self.layers@).take(k as int),
                self.warnings@ == warnings,
                self.skipped@ == skipped,
            decreases self.layers@.len() - k,
        {
            orders.push(self.layers[k].layer_type.stack_order());
            assert(layer_orders(self.layers@).take(k + 1) =~= layer_orders(self.layers@).take(k as int).push(
                kind_stack_order(self.layers@[k as int].layer_type@),
            ));
            k += 1;
        }
        assert(orders@ =~= layer_orders(self.layers@));
        let mut i: usize = 0;
        assert(new_layers.skip(0) =~= new_layers);
        assert(new_layers.len() == n_new);
        while parsed.layers.len() > 0
            invariant
                i <= new_layers.len() <= usize::MAX,
                parsed.layers@ == new_layers.skip(i as int),
                parsed.layers@.len() == new_layers.len() - i,
                self.warnings@ == warnings,
                self.skipped@ == skipped,
                orders@ == layer_orders(self.layers@),
                stack_sorted(orders@),
                stack_merge(self.layers@, parsed.layers@) == target,
            decreases parsed.layers@.len(),
        {
            let ghost before = self.layers@;
            let ghost rest = parsed.layers@;
            let layer = parsed.layers.remove(0);
            let order = layer.layer_type.stack_order();
            let pos = stack_position(&orders, order);
            proof {
                lemma_insert_keeps_stack_order(orders@, order, pos as int);
                lemma_le_count_is_partition(orders@, order, pos as int);
                assert(rest.drop_first() =~= parsed.layers@);
                assert(new_layers.skip(i as int).drop_first() =~= new_layers.skip(i + 1));
            }
            orders.insert(pos, order);
            self.layers.insert(pos, layer);
            assert(layer_orders(self.layers@) =~= orders@);
            i += 1;
        }
        assert(parsed.layers@ =~= Seq::<GerberLayer<G>>::empty());
        self.bbox = board_bbox(&self.layers);
    }
}


/// Whether a layer read from a zip is kept: it has a known type or draws.
pub open spec fn kept_in_zip<G>(layer: GerberLayer<G>) -> bool {
    !(layer.layer_type is Unknown) || layer.drawings > 0
}

/// The layers kept from the files of a zip, in order.
pub open spec fn zip_layers<G>(files: Seq<Result<GerberLayer<G>, FileError>>) -> Seq<GerberLayer<G>>
    decreases files.len(),
{
    if files.len() == 0 {
        seq![]
    } else {
        zip_layers(files.drop_last()) + match files.last() {
            Ok(l) => if kept_in_zip(l) {
                seq![l]
            } else {
                seq![]
            },
            Err(_) => seq![],
        }
    }
}

/// The layers of a zip from what reading each of its files gave: an error
/// when no file was fabrication data, else every layer of a known type or
/// with drawings, in file order.
pub fn zip_board_layers<G>(files: Vec<Result<GerberLayer<G>, FileError>>) -> (res: Result<
    Vec<GerberLayer<G>>,
    ExtractError,
>)
    ensures
        (forall|i: int| 0 <= i < files@.len() ==> #[trigger] files@[i] is Err) <==> res is Err,
        res matches Err(e) ==> e matches ExtractError::ParseError(m) && m@ == "No Gerber files found in zip"@,
        res matches Ok(v) ==> v@ == zip_layers(files@),
{
    let ghost fv = files@;
    let total = files.len();
    let mut out: Vec<GerberLayer<G>> = Vec::new();
    let mut any = false;
    let mut rest = reversed(files);
    assert(fv.subrange(0, fv.len() as int) =~= fv);
    let ghost n = fv.len();
    let mut i: usize = 0;
    while rest.len() > 0
        invariant
            n == fv.len(),
            n == total,
            i + rest@.len() == n,
            rest@ == fv.subrange(i as int, n as int).reverse(),
            out@ == zip_layers(fv.take(i as int)),
            any <==> exists|j: int| 0 <= j < i && #[trigger] fv[j] is Ok,
        decreases rest@.len(),
    {
        let ghost r0 = rest@;
        let f = rest.pop().unwrap();
        assert(f == r0.last());
        assert(f == fv[i as int]);
        assert(rest@ =~= fv.subrange(i + 1, n as int).reverse());
        assert(fv.take(i + 1).drop_last() =~= fv.take(i as int));
        match f {
            Ok(layer) => {
                any = true;
                let unknown = matches!(layer.layer_type, GerberLayerType::Unknown);
                if !unknown || layer.drawings > 0 {
                    out.push(layer);
                }
            },
            Err(_) => {},
        }
        i += 1;
    }
    assert(fv.take(n as int) =~= fv);
    if !any {
        return Err(ExtractError::ParseError(to_string("No Gerber files found in zip")));
    }
    Ok(out)
}


// ───────────────────────────── board assembly ─────────────────────────────

/// Where the geometry of a layer goes on the assembled board.
#[derive(Debug, Clone, Copy, PartialEq, Eq, Structural)]
pub enum Destination {
    Edges,
    SilkscreenFront,
    SilkscreenBack,
    Drills,
    CopperFront,
    CopperBack,
    CopperInner,
    /// Solder mask, paste, other and unknown layers, and copper when tracks
    /// are not wanted.
    Dropped,
}

pub open spec fn destination_spec(k: LayerKind, include_tracks: bool) -> Destination {
    match k {
        LayerKind::BoardOutline => Destination::Edges,
        LayerKind::SilkscreenTop => Destination::SilkscreenFront,
        LayerKind::SilkscreenBottom => Destination::SilkscreenBack,
        LayerKind::Drills => Destination::Drills,
        LayerKind::CopperTop => if include_tracks { Destination::CopperFront } else { Destination::Dropped },
        LayerKind::CopperBottom => if include_tracks { Destination::CopperBack } else { Destination::Dropped },
        LayerKind::CopperInner(_) => if include_tracks { Destination::CopperInner } else { Destination::Dropped },
        _ => Destination::Dropped,
    }
}

/// Where a layer of type `t` goes: outline to the edges, silkscreen to its
/// side, drills to the drill layer, copper (only when tracks are wanted) to
/// its side or inner layer; everything else is dropped.
pub fn destination(t: &GerberLayerType, include_tracks: bool) -> (res: Destination)
    ensures
        res == destination_spec(t@, include_tracks),
{
    match t {
        GerberLayerType::BoardOutline => Destination::Edges,
        GerberLayerType::SilkscreenTop => Destination::SilkscreenFront,
        GerberLayerType::SilkscreenBottom => Destination::SilkscreenBack,
        GerberLayerType::Drills => Destination::Drills,
        GerberLayerType::CopperTop => if include_tracks { Destination::CopperFront } else { Destination::Dropped },
        GerberLayerType::CopperBottom => if include_tracks { Destination::CopperBack } else { Destination::Dropped },
        GerberLayerType::CopperInner(_) => if include_tracks { Destination::CopperInner } else { Destination::Dropped },
        _ => Destination::Dropped,
    }
}

/// The geometries, in layer order, of the layers that go to `d`.
pub open spec fn routed<G>(layers: Seq<GerberLayer<G>>, d: Destination, include_tracks: bool) -> Seq<G>
    decreases layers.len(),
{
    if layers.len() == 0 {
        seq![]
    } else {
        routed(layers.drop_last(), d, include_tracks) + if destination_spec(layers.last().layer_type@, include_tracks)
            == d {
            seq![layers.last().geometry]
        } else {
            seq![]
        }
    }
}

/// The inner copper layers' names and geometries, in layer order.
pub open spec fn routed_inner<G>(layers: Seq<GerberLayer<G>>, include_tracks: bool) -> Seq<(Seq<char>, G)>
    decreases layers.len(),
{
    if layers.len() == 0 {
        seq![]
    } else {
        routed_inner(layers.drop_last(), include_tracks) + match layers.last().layer_type@ {
            LayerKind::CopperInner(n) => if include_tracks {
                seq![(n, layers.last().geometry)]
            } else {
                seq![]
            },
            _ => seq![],
        }
    }
}

/// The geometry of a board's layers, sorted by where it goes.
pub struct BoardLayers<G> {
    pub edges: Vec<G>,
    pub silkscreen_front: Vec<G>,
    pub silkscreen_back: Vec<G>,
    pub drills: Vec<G>,
    pub copper_front: Vec<G>,
    pub copper_back: Vec<G>,
    /// Inner copper layers with their names (`In1`, `In2`, ...).
    pub copper_inner: Vec<(String, G)>,
}

pub open spec fn inner_view<G>(v: Seq<(String, G)>) -> Seq<(Seq<char>, G)> {
    Seq::new(v.len(), |i: int| (v[i].0@, v[i].1))
}

/// The same items, last first.
fn reversed<T>(v: Vec<T>) -> (res: Vec<T>)
    ensures
        res@ == v@.reverse(),
{
    let ghost fv = v@;
    let mut v = v;
    let mut out: Vec<T> = Vec::new();
    while v.len() > 0
        invariant
            v@.len() <= fv.len(),
            v@ == fv.subrange(0, v@.len() as int),
            out@ == fv.subrange(v@.len() as int, fv.len() as int).reverse(),
        decreases v@.len(),
    {
        let ghost before = v@;
        let x = v.pop().unwrap();
        assert(v@ == before.drop_last());
        assert(x == before.last());
        out.push(x);
        assert(v@ =~= fv.subrange(0, v@.len() as int));
        assert(out@ =~= fv.subrange(v@.len() as int, fv.len() as int).reverse());
    }
    assert(fv.subrange(0, fv.len() as int) =~= fv);
    out
}

/// Sorts the layers' geometry by [`destination`], keeping layer order
/// within each destination.
pub fn route_layers<G>(layers: Vec<GerberLayer<G>>, include_tracks: bool) -> (res: BoardLayers<G>)
    ensures
        res.edges@ == routed(layers@, Destination::Edges, include_tracks),
        res.silkscreen_front@ == routed(layers@, Destination::SilkscreenFront, include_tracks),
        res.silkscreen_back@ == routed(layers@, Destination::SilkscreenBack, include_tracks),
        res.drills@ == routed(layers@, Destination::Drills, include_tracks),
        res.copper_front@ == routed(layers@, Destination::CopperFront, include_tracks),
        res.copper_back@ == routed(layers@, Destination::CopperBack, include_tracks),
        inner_view(res.copper_inner@) == routed_inner(layers@, include_tracks),
{
    let ghost lv = layers@;
    let total = layers.len();
    let mut stack = reversed(layers);
    let mut b = BoardLayers {
        edges: Vec::new(),
        silkscreen_front: Vec::new(),
        silkscreen_back: Vec::new(),
        drills: Vec::new(),
        copper_front: Vec::new(),
        copper_back: Vec::new(),
        copper_inner: Vec::new(),
    };
    let mut i: usize = 0;
    while stack.len() > 0
        invariant
            total == lv.len(),
            i + stack@.len() == total,
            stack@ == lv.subrange(i as int, total as int).reverse(),
            b.edges@ == routed(lv.take(i as int), Destination::Edges, include_tracks),
            b.silkscreen_front@ == routed(lv.take(i as int), Destination::SilkscreenFront, include_tracks),
            b.silkscreen_back@ == routed(lv.take(i as int), Destination::SilkscreenBack, include_tracks),
            b.drills@ == routed(lv.take(i as int), Destination::Drills, include_tracks),
            b.copper_front@ == routed(lv.take(i as int), Destination::CopperFront, include_tracks),
            b.copper_back@ == routed(lv.take(i as int), Destination::CopperBack, include_tracks),
            inner_view(b.copper_inner@) == routed_inner(lv.take(i as int), include_tracks),
        decreases stack@.len(),
    {
        let ghost s0 = stack@;
        let ghost ci0 = inner_view(b.copper_inner@);
        let layer = stack.pop().unwrap();
        assert(layer == s0.last());
        assert(layer == lv[i as int]);
        assert(stack@ =~= lv.subrange(i + 1, total as int).reverse());
        assert(lv.take(i + 1).drop_last() =~= lv.take(i as int));
        assert(lv.take(i + 1).last() == layer);
        let d = destination(&layer.layer_type, include_tracks);
        match d {
            Destination::Edges => b.edges.push(layer.geometry),
            Destination::SilkscreenFront => b.silkscreen_front.push(layer.geometry),
            Destination::SilkscreenBack => b.silkscreen_back.push(layer.geometry),
            Destination::Drills => b.drills.push(layer.geometry),
            Destination::CopperFront => b.copper_front.push(layer.geometry),
            Destination::CopperBack => b.copper_back.push(layer.geometry),
            Destination::CopperInner => {
                match layer.layer_type {
                    GerberLayerType::CopperInner(name) => {
                        let ghost nv = name@;
                        let ghost g = layer.geometry;
                        b.copper_inner.push((name, layer.geometry));
                        assert(inner_view(b.copper_inner@) =~= ci0.push((nv, g)));
                    },
                    _ => {},
                }
            },
            Destination::Dropped => {},
        }
        proof {
            assert(inner_view(b.copper_inner@) =~= routed_inner(lv.take(i + 1), include_tracks));
        }
        i += 1;
    }
    assert(lv.take(total as int) =~= lv);
    b
}

/// Each layer goes to exactly one place: the routed geometries number as many
/// as the layers that are not dropped.
pub proof fn lemma_route_partitions<G>(layers: Seq<GerberLayer<G>>, include_tracks: bool)
    ensures
        routed(layers, Destination::Edges, include_tracks).len() + routed(layers, Destination::SilkscreenFront, include_tracks).len()
            + routed(layers, Destination::SilkscreenBack, include_tracks).len() + routed(layers, Destination::Drills, include_tracks).len()
            + routed(layers, Destination::CopperFront, include_tracks).len() + routed(layers, Destination::CopperBack, include_tracks).len()
            + routed_inner(layers, include_tracks).len() + routed(layers, Destination::Dropped, include_tracks).len() == layers.len(),
    decreases layers.len(),
{
    if layers.len() > 0 {
        lemma_route_partitions(layers.drop_last(), include_tracks);
    }
}


/// Bounds of an assembled board: its outline layers' extents, or when they
/// draw nothing, its silkscreen layers' extents.
pub open spec fn edges_bbox_spec<G>(ls: Seq<GerberLayer<G>>) -> Option<WorldBox> {
    match union_of(ls, Some(LayerFunction::Outline)) {
        Some(b) => Some(b),
        None => union_of(ls, Some(LayerFunction::Silkscreen)),
    }
}

/// The bounds of an assembled board, as [`edges_bbox_spec`] states.
pub fn edges_bbox<G>(layers: &Vec<GerberLayer<G>>) -> (res: Option<WorldBox>)
    ensures
        res == edges_bbox_spec(layers@),
{
    match union_exec(layers, Some(LayerFunction::Outline)) {
        Some(b) => Some(b),
        None => union_exec(layers, Some(LayerFunction::Silkscreen)),
    }
}

} // verus!
