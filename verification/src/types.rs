//! Board-level records that carry no geometry.
use vstd::prelude::*;

verus! {

/// Which face of the board a component sits on.
#[derive(Debug, Clone, Copy, PartialEq, Eq)]
pub enum Side {
    Front,
    Back,
}

/// A placed component as it appears in the bill of materials.
#[derive(Debug, Clone, PartialEq)]
pub struct Component {
    /// Reference designator, such as `R12`.
    pub ref_: String,
    /// Value, such as `10k`.
    pub val: String,
    /// Footprint (package) name.
    pub footprint_name: String,
    pub layer: Side,
    /// Index of the component's footprint in the board's footprint list.
    pub footprint_index: usize,
    /// Further named fields, in the order the design file lists them.
    pub extra_fields: Vec<(String, String)>,
    /// Placement attribute such as `virtual` or `dnp`.
    pub attr: Option<String>,
}

} // verus!
