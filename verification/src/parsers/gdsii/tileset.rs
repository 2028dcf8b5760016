//! Layer colours and generation settings of a GDSII tile set.
use vstd::prelude::*;

use crate::text::to_string;

verus! {

/// How a tile set was generated: the mode and the deepest pre-rendered
/// level.
#[derive(Debug, Clone, PartialEq)]
pub struct Generated {
    pub mode: String,
    pub eager_max_z: u32,
}

/// The twelve layer colours.
pub open spec fn palette_entry(i: int) -> Seq<char> {
    if i == 0 {
        "#7aa2f7"@
    } else if i == 1 {
        "#9ece6a"@
    } else if i == 2 {
        "#e0af68"@
    } else if i == 3 {
        "#bb9af7"@
    } else if i == 4 {
        "#7dcfff"@
    } else if i == 5 {
        "#f7768e"@
    } else if i == 6 {
        "#2ac3de"@
    } else if i == 7 {
        "#ff9e64"@
    } else if i == 8 {
        "#73daca"@
    } else if i == 9 {
        "#b4f9f8"@
    } else if i == 10 {
        "#c0caf5"@
    } else {
        "#ff007c"@
    }
}

/// The palette index of a layer and datatype: `31 * layer + datatype`,
/// taken modulo 12 (never negative).
pub open spec fn palette_index(layer: i16, datatype: i16) -> int {
    (31 * layer + datatype) % 12
}

fn palette_str(i: u64) -> (res: &'static str)
    requires
        i < 12,
    ensures
        res@ == palette_entry(i as int),
{
    if i == 0 {
        "#7aa2f7"
    } else if i == 1 {
        "#9ece6a"
    } else if i == 2 {
        "#e0af68"
    } else if i == 3 {
        "#bb9af7"
    } else if i == 4 {
        "#7dcfff"
    } else if i == 5 {
        "#f7768e"
    } else if i == 6 {
        "#2ac3de"
    } else if i == 7 {
        "#ff9e64"
    } else if i == 8 {
        "#73daca"
    } else if i == 9 {
        "#b4f9f8"
    } else if i == 10 {
        "#c0caf5"
    } else {
        "#ff007c"
    }
}

/// Deterministic layer colour from the palette.
pub fn palette_color(layer: i16, datatype: i16) -> (res: String)
    ensures
        res@ == palette_entry(palette_index(layer, datatype)),
{
    let h: i64 = (layer as i64) * 31 + (datatype as i64);
    // Shifting by a multiple of 12 keeps the residue and makes the value
    // non-negative.
    let shifted = (h + 12 * 87382) as u64;
    let idx = shifted % 12;
    assert((h + 12 * 87382) % 12 == h % 12) by (nonlinear_arith);
    let s = palette_str(idx);
    to_string(s)
}

} // verus!
