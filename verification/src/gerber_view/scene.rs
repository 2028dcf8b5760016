//! Paint order of the compiled layers on the canvas.
use vstd::prelude::*;

use crate::parsers::gerber::layers::{kind_stack_order, GerberLayerType, LayerKind};

verus! {

/// Drills and the board outline stay on top whichever side is viewed.
pub open spec fn pinned_top(k: LayerKind) -> bool {
    k is Drills || k is BoardOutline
}

/// Paint order for a layer kind: the stack order, negated in the bottom view
/// except for the pinned layers.
pub open spec fn paint_order_spec(k: LayerKind, from_bottom: bool) -> int {
    if from_bottom && !pinned_top(k) {
        -(kind_stack_order(k) as int)
    } else {
        kind_stack_order(k) as int
    }
}

/// Paint order for a layer. Viewed from the bottom, the stack is reversed, but
/// drills and the board outline always stay on top.
pub fn paint_order(layer_type: &GerberLayerType, from_bottom: bool) -> (res: i32)
    ensures
        res == paint_order_spec(layer_type@, from_bottom),
{
    let order = layer_type.stack_order() as i32;
    let pinned = match layer_type {
        GerberLayerType::Drills | GerberLayerType::BoardOutline => true,
        _ => false,
    };
    if from_bottom && !pinned {
        -order
    } else {
        order
    }
}

/// Viewing from the bottom reverses the order of every two layers that are not
/// pinned, and the pinned layers are painted after every other layer in both
/// views.
pub proof fn lemma_bottom_view_reverses_stack(a: LayerKind, b: LayerKind)
    ensures
        !pinned_top(a) && !pinned_top(b) ==> (paint_order_spec(a, false) < paint_order_spec(b, false)
            <==> paint_order_spec(b, true) < paint_order_spec(a, true)),
        pinned_top(a) && !pinned_top(b) ==> paint_order_spec(b, false) < paint_order_spec(a, false)
            && paint_order_spec(b, true) < paint_order_spec(a, true),
{
}

} // verus!
