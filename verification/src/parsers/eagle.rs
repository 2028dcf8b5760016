//! Eagle XML boards: layer categories and sides, and detection of the
//! OpenBoardView ASCII files that share the `.brd` extension.
pub mod board;
pub mod elements;
pub mod xml;

use vstd::prelude::*;

use super::eagle_binary::{layer_cat_spec, layer_side_spec, mirror_layer_spec, LayerCat};
use crate::error::ExtractError;
use crate::text::{contains, str_from_utf8, to_string};

verus! {

/// Board-level category of an Eagle layer number.
#[derive(Debug, Clone, Copy, PartialEq, Eq)]
pub enum EagleLayerCat {
    CopperF,
    CopperB,
    SilkF,
    SilkB,
    FabF,
    FabB,
    Edge,
    Other,
}

/// The category of the same name among the binary-format categories.
pub open spec fn same_cat(a: EagleLayerCat, b: LayerCat) -> bool {
    match a {
        EagleLayerCat::CopperF => b == LayerCat::CopperF,
        EagleLayerCat::CopperB => b == LayerCat::CopperB,
        EagleLayerCat::SilkF => b == LayerCat::SilkF,
        EagleLayerCat::SilkB => b == LayerCat::SilkB,
        EagleLayerCat::FabF => b == LayerCat::FabF,
        EagleLayerCat::FabB => b == LayerCat::FabB,
        EagleLayerCat::Edge => b == LayerCat::Edge,
        EagleLayerCat::Other => b == LayerCat::Other,
    }
}

/// Byte sequence `needle` occurs in `hay` at index `i`.
pub open spec fn bytes_at(hay: Seq<u8>, needle: Seq<u8>, i: int) -> bool {
    0 <= i && i + needle.len() <= hay.len() && hay.subrange(i, i + needle.len()) == needle
}

/// Byte sequence `needle` occurs in `hay`.
pub open spec fn contains_bytes(hay: Seq<u8>, needle: Seq<u8>) -> bool {
    exists|i: int| bytes_at(hay, needle, i)
}

/// The ASCII bytes of a marker.
pub open spec fn ascii_bytes(s: Seq<char>) -> Seq<u8> {
    s.map_values(|c: char| c as u8)
}

/// Section markers that open an OpenBoardView ASCII file.
pub open spec fn boardview_markers() -> Seq<Seq<char>> {
    seq!["BRDOUT:"@, "NETS:"@, "PARTS:"@, "PINS:"@, "NAILS:"@, "FORMAT:"@]
}

/// The first 512 bytes (or fewer) are UTF-8 text that holds a section marker.
pub open spec fn is_boardview_spec(data: Seq<u8>) -> bool {
    let head = data.take(if data.len() < 512 { data.len() as int } else { 512 });
    vstd::utf8::valid_utf8(head) && exists|k: int| 0 <= k < 6 && contains_bytes(head, ascii_bytes(#[trigger] boardview_markers()[k]))
}

fn contains_ascii(hay: &[u8], needle: &str) -> (res: bool)
    requires
        needle.is_ascii(),
    ensures
        res == contains_bytes(hay@, ascii_bytes(needle@)),
{
    let nb = needle.as_bytes();
    proof {
        vstd::string::is_ascii_spec_bytes(needle);
        assert(nb@ =~= ascii_bytes(needle@));
    }
    if nb.len() > hay.len() {
        return false;
    }
    let mut i: usize = 0;
    while i <= hay.len() - nb.len()
        invariant
            nb.len() <= hay.len(),
            i <= hay.len() - nb.len() + 1,
            nb@ == ascii_bytes(needle@),
            forall|j: int| 0 <= j < i ==> !bytes_at(hay@, nb@, j),
        decreases hay.len() - nb.len() + 1 - i,
    {
        let mut k: usize = 0;
        while k < nb.len() && hay[i + k] == nb[k]
            invariant
                nb.len() <= hay.len(),
                i + nb.len() <= hay.len(),
                k <= nb.len(),
                forall|m: int| 0 <= m < k ==> hay@[i + m] == nb@[m],
            decreases nb.len() - k,
        {
            k += 1;
        }
        if k == nb.len() {
            assert(hay@.subrange(i as int, i + nb@.len()) =~= nb@);
            assert(bytes_at(hay@, nb@, i as int));
            return true;
        }
        assert(hay@.subrange(i as int, i + nb@.len())[k as int] != nb@[k as int]);
        assert(!bytes_at(hay@, nb@, i as int));
        i += 1;
    }
    assert forall|j: int| !bytes_at(hay@, nb@, j) by {
        if bytes_at(hay@, nb@, j) {
            assert(j < i);
        }
    }
    false
}

/// Detect OpenBoardView ASCII `.brd` files, which share the `.brd` extension
/// with Eagle but have a completely different format.
pub fn is_boardview_ascii(data: &[u8]) -> (res: bool)
    ensures
        res == is_boardview_spec(data@),
{
    let prefix_len = if data.len() < 512 { data.len() } else { 512 };
    let head = crate::text::slice_bytes(data, 0, prefix_len);
    assert(head@ =~= data@.take(prefix_len as int));
    if crate::text::str_from_utf8(head.as_slice()).is_none() {
        return false;
    }
    proof {
        reveal_strlit("BRDOUT:");
        reveal_strlit("NETS:");
        reveal_strlit("PARTS:");
        reveal_strlit("PINS:");
        reveal_strlit("NAILS:");
        reveal_strlit("FORMAT:");
    }
    let r0 = contains_ascii(head.as_slice(), "BRDOUT:");
    let r1 = contains_ascii(head.as_slice(), "NETS:");
    let r2 = contains_ascii(head.as_slice(), "PARTS:");
    let r3 = contains_ascii(head.as_slice(), "PINS:");
    let r4 = contains_ascii(head.as_slice(), "NAILS:");
    let r5 = contains_ascii(head.as_slice(), "FORMAT:");
    let r = r0 || r1 || r2 || r3 || r4 || r5;
    proof {
        let m = boardview_markers();
        let h = data@.take(prefix_len as int);
        if r {
            if r0 { assert(contains_bytes(h, ascii_bytes(m[0]))); }
            else if r1 { assert(contains_bytes(h, ascii_bytes(m[1]))); }
            else if r2 { assert(contains_bytes(h, ascii_bytes(m[2]))); }
            else if r3 { assert(contains_bytes(h, ascii_bytes(m[3]))); }
            else if r4 { assert(contains_bytes(h, ascii_bytes(m[4]))); }
            else { assert(contains_bytes(h, ascii_bytes(m[5]))); }
        } else {
            assert forall|k: int| 0 <= k < 6 implies !contains_bytes(h, ascii_bytes(#[trigger] m[k])) by {
                if k == 0 { } else if k == 1 { } else if k == 2 { } else if k == 3 { } else if k == 4 { } else { }
            }
        }
    }
    r
}

pub fn categorize_eagle_layer(layer: u32) -> (res: EagleLayerCat)
    ensures
        same_cat(res, layer_cat_spec(layer as int)),
{
    match layer {
        1 => EagleLayerCat::CopperF,
        16 => EagleLayerCat::CopperB,
        20 => EagleLayerCat::Edge,
        21 | 25 => EagleLayerCat::SilkF,
        22 | 26 => EagleLayerCat::SilkB,
        27 | 51 => EagleLayerCat::FabF,
        28 | 52 => EagleLayerCat::FabB,
        _ => EagleLayerCat::Other,
    }
}

pub fn layer_side(layer: u32) -> (res: &'static str)
    ensures
        res@ == layer_side_spec(layer as int),
{
    match layer {
        1 | 21 | 25 | 27 | 51 => "F",
        16 | 22 | 26 | 28 | 52 => "B",
        _ => "F",
    }
}

/// Side of a layer seen from a mirrored (bottom-placed) part.
pub fn mirror_layer(layer: u32) -> (res: String)
    ensures
        layer == 1 ==> res@ == "B"@,
        layer == 16 ==> res@ == "F"@,
        layer != 1 && layer != 16 ==> res@ == layer_side_spec(layer as int),
{
    match layer {
        1 => to_string("B"),
        16 => to_string("F"),
        _ => to_string(layer_side(layer)),
    }
}

pub fn mirror_eagle_layer(layer: u32) -> (res: u32)
    ensures
        res as int == mirror_layer_spec(layer as int),
{
    match layer {
        1 => 16,
        16 => 1,
        21 => 22,
        22 => 21,
        25 => 26,
        26 => 25,
        27 => 28,
        28 => 27,
        51 => 52,
        52 => 51,
        _ => layer,
    }
}

// ───────────────────────────── input kinds ─────────────────────────────

/// What an Eagle `.brd` file holds.
#[derive(Debug, PartialEq)]
pub enum EagleInput<'a> {
    /// A pre-6.0 binary board.
    Binary,
    /// XML text.
    Xml(&'a str),
}

/// The error for an OpenBoardView ASCII file.
pub open spec fn boardview_message() -> Seq<char> {
    "File is an OpenBoardView ASCII .brd (debug/diagnostic export), not an Eagle design file. This format is not supported."@
}

/// The error for bytes that are neither binary Eagle nor text.
pub open spec fn binary_message() -> Seq<char> {
    "File appears to be a binary PCB format (possibly Cadence Allegro). Only Eagle XML and Eagle binary .brd files are supported."@
}

/// Decides how an Eagle `.brd` file is read: binary boards by their start
/// record, OpenBoardView ASCII files refused, other text as XML, and other
/// bytes refused as a foreign binary format.
pub fn classify_eagle_input(data: &[u8]) -> (res: Result<EagleInput, ExtractError>)
    ensures
        data@.len() >= 24 && data@[0] == 0x10 ==> res == Ok::<EagleInput, ExtractError>(EagleInput::Binary),
        !(data@.len() >= 24 && data@[0] == 0x10) && is_boardview_spec(data@) ==> (res matches Err(ExtractError::ParseError(m)) && m@ == boardview_message()),
        !(data@.len() >= 24 && data@[0] == 0x10) && !is_boardview_spec(data@) && vstd::utf8::valid_utf8(data@)
            ==> (res matches Ok(EagleInput::Xml(t)) && t@ == vstd::utf8::decode_utf8(data@)),
        !(data@.len() >= 24 && data@[0] == 0x10) && !is_boardview_spec(data@) && !vstd::utf8::valid_utf8(data@)
            ==> (res matches Err(ExtractError::ParseError(m)) && m@ == binary_message()),
{
    if super::eagle_binary::is_eagle_binary(data) {
        return Ok(EagleInput::Binary);
    }
    if is_boardview_ascii(data) {
        return Err(ExtractError::ParseError(to_string(
            "File is an OpenBoardView ASCII .brd (debug/diagnostic export), not an Eagle design file. This format is not supported.",
        )));
    }
    match str_from_utf8(data) {
        Some(t) => Ok(EagleInput::Xml(t)),
        None => Err(ExtractError::ParseError(to_string(
            "File appears to be a binary PCB format (possibly Cadence Allegro). Only Eagle XML and Eagle binary .brd files are supported.",
        ))),
    }
}

} // verus!
