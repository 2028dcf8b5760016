//! What role a Gerber file plays in the board stackup, identified from its X2
//! file-function attribute or from the naming conventions of the EDA tool that
//! wrote it.
use vstd::prelude::*;

use super::commands::{BoardSide, CopperSide, FileFunction};
use crate::text::{
    after_last, after_last_exec, all_digits, before_last, before_last_exec, chars_of, contains,
    contains_str, decimal, decimal_chars, eq_str, find_chars, first_index, is_digit, last_index,
    parse_unsigned, parse_unsigned_exec, push_chars, rfind_chars, slice_chars, starts_with,
    starts_with_str, string_from_chars, to_string, lowercase, to_lowercase, last_char_index, all_ascii, ascii_lower,
};

verus! {

/// What role a Gerber file plays in the board stackup.
#[derive(Debug, Clone, PartialEq, Eq)]
pub enum GerberLayerType {
    CopperTop,
    CopperBottom,
    CopperInner(String),
    SilkscreenTop,
    SilkscreenBottom,
    SolderMaskTop,
    SolderMaskBottom,
    SolderPasteTop,
    SolderPasteBottom,
    BoardOutline,
    Drills,
    /// A declared non-fabrication layer: documentation, courtyard, fab/assembly
    /// drawings, adhesive, user layers.
    Other,
    Unknown,
}

/// Mathematical value of a [`GerberLayerType`]: the inner layer name as characters.
pub enum LayerKind {
    CopperTop,
    CopperBottom,
    CopperInner(Seq<char>),
    SilkscreenTop,
    SilkscreenBottom,
    SolderMaskTop,
    SolderMaskBottom,
    SolderPasteTop,
    SolderPasteBottom,
    BoardOutline,
    Drills,
    Other,
    Unknown,
}

impl View for GerberLayerType {
    type V = LayerKind;

    open spec fn view(&self) -> LayerKind {
        match self {
            GerberLayerType::CopperTop => LayerKind::CopperTop,
            GerberLayerType::CopperBottom => LayerKind::CopperBottom,
            GerberLayerType::CopperInner(name) => LayerKind::CopperInner(name@),
            GerberLayerType::SilkscreenTop => LayerKind::SilkscreenTop,
            GerberLayerType::SilkscreenBottom => LayerKind::SilkscreenBottom,
            GerberLayerType::SolderMaskTop => LayerKind::SolderMaskTop,
            GerberLayerType::SolderMaskBottom => LayerKind::SolderMaskBottom,
            GerberLayerType::SolderPasteTop => LayerKind::SolderPasteTop,
            GerberLayerType::SolderPasteBottom => LayerKind::SolderPasteBottom,
            GerberLayerType::BoardOutline => LayerKind::BoardOutline,
            GerberLayerType::Drills => LayerKind::Drills,
            GerberLayerType::Other => LayerKind::Other,
            GerberLayerType::Unknown => LayerKind::Unknown,
        }
    }
}

/// Side-independent function of a fabrication layer.
#[derive(Debug, Clone, Copy, PartialEq, Eq, Structural)]
pub enum LayerFunction {
    Copper,
    Silkscreen,
    SolderMask,
    SolderPaste,
    Outline,
    Drill,
    Other,
    Unknown,
}

/// Which side of the board a fabrication layer belongs to.
#[derive(Debug, Clone, Copy, PartialEq, Eq, Structural)]
pub enum LayerSide {
    Top,
    Bottom,
    Inner,
}

// ───────────────────────────── specifications ─────────────────────────────

pub open spec fn kind_function(k: LayerKind) -> LayerFunction {
    match k {
        LayerKind::CopperTop | LayerKind::CopperBottom | LayerKind::CopperInner(_) => LayerFunction::Copper,
        LayerKind::SilkscreenTop | LayerKind::SilkscreenBottom => LayerFunction::Silkscreen,
        LayerKind::SolderMaskTop | LayerKind::SolderMaskBottom => LayerFunction::SolderMask,
        LayerKind::SolderPasteTop | LayerKind::SolderPasteBottom => LayerFunction::SolderPaste,
        LayerKind::BoardOutline => LayerFunction::Outline,
        LayerKind::Drills => LayerFunction::Drill,
        LayerKind::Other => LayerFunction::Other,
        LayerKind::Unknown => LayerFunction::Unknown,
    }
}

pub open spec fn kind_side(k: LayerKind) -> Option<LayerSide> {
    match k {
        LayerKind::CopperTop | LayerKind::SilkscreenTop | LayerKind::SolderMaskTop
        | LayerKind::SolderPasteTop => Some(LayerSide::Top),
        LayerKind::CopperBottom | LayerKind::SilkscreenBottom | LayerKind::SolderMaskBottom
        | LayerKind::SolderPasteBottom => Some(LayerSide::Bottom),
        LayerKind::CopperInner(_) => Some(LayerSide::Inner),
        _ => None,
    }
}

pub open spec fn kind_stack_order(k: LayerKind) -> u8 {
    match k {
        LayerKind::SolderPasteBottom => 0,
        LayerKind::SilkscreenBottom => 1,
        LayerKind::SolderMaskBottom => 2,
        LayerKind::CopperBottom => 3,
        LayerKind::CopperInner(_) => 4,
        LayerKind::Other | LayerKind::Unknown => 5,
        LayerKind::CopperTop => 6,
        LayerKind::SolderMaskTop => 7,
        LayerKind::SilkscreenTop => 8,
        LayerKind::SolderPasteTop => 9,
        LayerKind::Drills => 10,
        LayerKind::BoardOutline => 11,
    }
}

/// Layer kind declared by an X2 `FileFunction` attribute.
pub open spec fn x2_kind(func: FileFunction) -> LayerKind {
    match func {
        FileFunction::Copper { side, layer_num } => match side {
            CopperSide::Top => LayerKind::CopperTop,
            CopperSide::Bottom => LayerKind::CopperBottom,
            CopperSide::Inner => {
                let n: int = if layer_num >= 2 { layer_num - 1 } else { 1 };
                LayerKind::CopperInner("In"@ + decimal(n as nat))
            },
        },
        FileFunction::Legend { side } => match side {
            BoardSide::Top => LayerKind::SilkscreenTop,
            BoardSide::Bottom => LayerKind::SilkscreenBottom,
        },
        FileFunction::SolderMask { side } => match side {
            BoardSide::Top => LayerKind::SolderMaskTop,
            BoardSide::Bottom => LayerKind::SolderMaskBottom,
        },
        FileFunction::Paste { side } => match side {
            BoardSide::Top => LayerKind::SolderPasteTop,
            BoardSide::Bottom => LayerKind::SolderPasteBottom,
        },
        FileFunction::Profile => LayerKind::BoardOutline,
        FileFunction::Other(f) => if f@.len() == 0 {
            LayerKind::Unknown
        } else if f@ == "Plated"@ || f@ == "NonPlated"@ {
            LayerKind::Drills
        } else {
            LayerKind::Other
        },
    }
}

/// Layer kind named by a (lower-case) Altium/Protel or Eagle file extension.
pub open spec fn extension_kind(ext: Seq<char>) -> Option<LayerKind> {
    if ext == "gtl"@ || ext == "cmp"@ {
        Some(LayerKind::CopperTop)
    } else if ext == "gbl"@ || ext == "sol"@ {
        Some(LayerKind::CopperBottom)
    } else if ext == "g1"@ || ext == "g2"@ || ext == "g3"@ || ext == "g4"@ || ext == "g5"@
        || ext == "g6"@ || ext == "g7"@ || ext == "g8"@ {
        Some(LayerKind::CopperInner("In"@ + ext.subrange(1, ext.len() as int)))
    } else if ext == "gto"@ || ext == "plc"@ {
        Some(LayerKind::SilkscreenTop)
    } else if ext == "gbo"@ || ext == "pls"@ {
        Some(LayerKind::SilkscreenBottom)
    } else if ext == "gts"@ || ext == "stc"@ {
        Some(LayerKind::SolderMaskTop)
    } else if ext == "gbs"@ || ext == "sts"@ {
        Some(LayerKind::SolderMaskBottom)
    } else if ext == "gtp"@ {
        Some(LayerKind::SolderPasteTop)
    } else if ext == "gbp"@ {
        Some(LayerKind::SolderPasteBottom)
    } else if ext == "gko"@ || ext == "dim"@ {
        Some(LayerKind::BoardOutline)
    } else {
        None
    }
}

/// Board side named in a filename: "top"/"front" or "bottom"/"bot"/"back".
pub open spec fn name_side_spec(lower: Seq<char>) -> Option<LayerSide> {
    if contains(lower, "top"@) || contains(lower, "front"@) {
        Some(LayerSide::Top)
    } else if contains(lower, "bot"@) || contains(lower, "back"@) {
        Some(LayerSide::Bottom)
    } else {
        None
    }
}

/// Number of leading decimal digits of `s`.
pub open spec fn leading_digits(s: Seq<char>) -> nat
    decreases s.len(),
{
    if s.len() > 0 && is_digit(s[0]) {
        1 + leading_digits(s.drop_first())
    } else {
        0
    }
}

/// `s` without its leading `_` and `-` characters.
pub open spec fn trim_separators(s: Seq<char>) -> Seq<char>
    decreases s.len(),
{
    if s.len() > 0 && (s[0] == '_' || s[0] == '-') {
        trim_separators(s.drop_first())
    } else {
        s
    }
}

/// Inner layer index below `n`, computed in 32-bit unsigned arithmetic.
pub open spec fn previous_layer(n: nat) -> nat {
    if n == 0 { 0xffff_ffff } else { (n - 1) as nat }
}

/// Allegro-style numbered copper artwork: `l1_top.art`, `l3.art`,
/// `l6_bottom.art`, `layer2.gbr`.
pub open spec fn numbered_copper_spec(lower: Seq<char>) -> Option<LayerKind> {
    let stem = before_last(lower, '.');
    let rest = if starts_with(stem, "layer"@) {
        Some(stem.subrange(5, stem.len() as int))
    } else if starts_with(stem, "l"@) {
        Some(stem.subrange(1, stem.len() as int))
    } else {
        None
    };
    match rest {
        None => None,
        Some(rest) => {
            let d = leading_digits(rest);
            match parse_unsigned(rest.take(d as int), 0xffff_ffff) {
                None => None,
                Some(n) => {
                    let suffix = trim_separators(rest.subrange(d as int, rest.len() as int));
                    match name_side_spec(suffix) {
                        Some(LayerSide::Top) => Some(LayerKind::CopperTop),
                        Some(LayerSide::Bottom) => Some(LayerKind::CopperBottom),
                        _ => if suffix.len() == 0 && n == 1 {
                            Some(LayerKind::CopperTop)
                        } else if suffix.len() == 0 {
                            Some(LayerKind::CopperInner("In"@ + decimal(previous_layer(n))))
                        } else {
                            None
                        },
                    }
                },
            }
        },
    }
}

/// KiCad inner copper name for one separator: `in3_cu` gives `In3`.
pub open spec fn kicad_inner_with(lower: Seq<char>, sep: Seq<char>) -> Option<Seq<char>> {
    match first_index(lower, sep) {
        None => None,
        Some(pos) => {
            let before = lower.take(pos);
            match last_index(before, "in"@) {
                None => None,
                Some(ip) => match parse_unsigned(before.subrange(ip + 2, before.len() as int), 0xffff_ffff) {
                    Some(n) => Some("In"@ + decimal(n)),
                    None => None,
                },
            }
        },
    }
}

/// KiCad inner copper layer name (e.g., "in1_cu" gives "In1").
pub open spec fn kicad_inner_spec(lower: Seq<char>) -> Option<Seq<char>> {
    match kicad_inner_with(lower, "_cu"@) {
        Some(n) => Some(n),
        None => kicad_inner_with(lower, ".cu"@),
    }
}

pub open spec fn contains_any2(s: Seq<char>, a: Seq<char>, b: Seq<char>) -> bool {
    contains(s, a) || contains(s, b)
}

pub open spec fn contains_any3(s: Seq<char>, a: Seq<char>, b: Seq<char>, c: Seq<char>) -> bool {
    contains(s, a) || contains(s, b) || contains(s, c)
}

pub open spec fn contains_any4(s: Seq<char>, a: Seq<char>, b: Seq<char>, c: Seq<char>, d: Seq<char>) -> bool {
    contains(s, a) || contains(s, b) || contains(s, c) || contains(s, d)
}

/// KiCad documentation layers: courtyard, fab, adhesive, margin, user drawings.
pub open spec fn kicad_documentation(lower: Seq<char>) -> bool {
    contains_any3(lower, "courtyard"@, "crtyd"@, "_fab"@) || contains_any3(lower, ".fab"@, "_adhes"@, ".adhes"@)
        || contains_any3(lower, "margin"@, "_user"@, ".user"@) || contains(lower, "user_"@)
}

/// Silkscreen, solder mask or paste named together with a board side.
pub open spec fn sided_kind(side: Option<LayerSide>, top: LayerKind, bottom: LayerKind) -> Option<LayerKind> {
    match side {
        Some(LayerSide::Top) => Some(top),
        Some(LayerSide::Bottom) => Some(bottom),
        _ => None,
    }
}

/// Layer kind from the generic naming patterns (side words, "copper", "silk",
/// "mask", "paste", "outline", numbered copper, Allegro drawings).
pub open spec fn generic_kind(lower: Seq<char>) -> LayerKind {
    let side = name_side_spec(lower);
    let stem = before_last(lower, '.');
    if contains(lower, "copper"@) && side == Some(LayerSide::Top) {
        LayerKind::CopperTop
    } else if contains(lower, "copper"@) && side == Some(LayerSide::Bottom) {
        LayerKind::CopperBottom
    } else if contains(lower, "silk"@) && sided_kind(side, LayerKind::SilkscreenTop, LayerKind::SilkscreenBottom) is Some {
        sided_kind(side, LayerKind::SilkscreenTop, LayerKind::SilkscreenBottom)->0
    } else if contains(lower, "mask"@) && sided_kind(side, LayerKind::SolderMaskTop, LayerKind::SolderMaskBottom) is Some {
        sided_kind(side, LayerKind::SolderMaskTop, LayerKind::SolderMaskBottom)->0
    } else if contains(lower, "paste"@) && sided_kind(side, LayerKind::SolderPasteTop, LayerKind::SolderPasteBottom) is Some {
        sided_kind(side, LayerKind::SolderPasteTop, LayerKind::SolderPasteBottom)->0
    } else if contains_any2(lower, "outline"@, "profile"@) {
        LayerKind::BoardOutline
    } else if numbered_copper_spec(lower) is Some {
        numbered_copper_spec(lower)->0
    } else if stem == "fab"@ || starts_with(stem, "fabnote"@) || starts_with(stem, "assy"@) {
        LayerKind::Other
    } else {
        LayerKind::Unknown
    }
}

/// Layer kind from EasyEDA names, then the generic patterns.
pub open spec fn easyeda_or_generic_kind(lower: Seq<char>) -> LayerKind {
    if contains(lower, "toplayer"@) {
        LayerKind::CopperTop
    } else if contains(lower, "bottomlayer"@) {
        LayerKind::CopperBottom
    } else if contains(lower, "topsilk"@) {
        LayerKind::SilkscreenTop
    } else if contains(lower, "bottomsilk"@) {
        LayerKind::SilkscreenBottom
    } else if contains(lower, "topsoldermask"@) {
        LayerKind::SolderMaskTop
    } else if contains(lower, "bottomsoldermask"@) {
        LayerKind::SolderMaskBottom
    } else {
        generic_kind(lower)
    }
}

/// Layer kind from KiCad names, then EasyEDA names and the generic patterns.
pub open spec fn kicad_or_later_kind(lower: Seq<char>) -> LayerKind {
    if contains_any3(lower, "f_cu"@, "f.cu"@, "front_cu"@) {
        LayerKind::CopperTop
    } else if contains_any3(lower, "b_cu"@, "b.cu"@, "back_cu"@) {
        LayerKind::CopperBottom
    } else if kicad_inner_spec(lower) is Some {
        LayerKind::CopperInner(kicad_inner_spec(lower)->0)
    } else if contains_any4(lower, "f_silks"@, "f.silks"@, "f_silkscreen"@, "front_silk"@) {
        LayerKind::SilkscreenTop
    } else if contains_any4(lower, "b_silks"@, "b.silks"@, "b_silkscreen"@, "back_silk"@) {
        LayerKind::SilkscreenBottom
    } else if contains_any3(lower, "f_mask"@, "f.mask"@, "front_mask"@) {
        LayerKind::SolderMaskTop
    } else if contains_any3(lower, "b_mask"@, "b.mask"@, "back_mask"@) {
        LayerKind::SolderMaskBottom
    } else if contains_any3(lower, "f_paste"@, "f.paste"@, "front_paste"@) {
        LayerKind::SolderPasteTop
    } else if contains_any3(lower, "b_paste"@, "b.paste"@, "back_paste"@) {
        LayerKind::SolderPasteBottom
    } else if contains_any3(lower, "edge_cuts"@, "edge.cuts"@, "boardoutline"@) {
        LayerKind::BoardOutline
    } else if kicad_documentation(lower) {
        LayerKind::Other
    } else {
        easyeda_or_generic_kind(lower)
    }
}

/// Layer kind of a lower-cased file name (without directories).
pub open spec fn filename_kind(lower: Seq<char>) -> LayerKind {
    match extension_kind(after_last(lower, '.')) {
        Some(k) => k,
        None => kicad_or_later_kind(lower),
    }
}

/// The file name of a path: what follows the last `/`, then the last `\`.
pub open spec fn base_name(path: Seq<char>) -> Seq<char> {
    after_last(after_last(path, '/'), '\\')
}

// ───────────────────────────── methods ─────────────────────────────

impl GerberLayerType {
    pub fn function(&self) -> (res: LayerFunction)
        ensures
            res == kind_function(self@),
    {
        match self {
            Self::CopperTop | Self::CopperBottom | Self::CopperInner(_) => LayerFunction::Copper,
            Self::SilkscreenTop | Self::SilkscreenBottom => LayerFunction::Silkscreen,
            Self::SolderMaskTop | Self::SolderMaskBottom => LayerFunction::SolderMask,
            Self::SolderPasteTop | Self::SolderPasteBottom => LayerFunction::SolderPaste,
            Self::BoardOutline => LayerFunction::Outline,
            Self::Drills => LayerFunction::Drill,
            Self::Other => LayerFunction::Other,
            Self::Unknown => LayerFunction::Unknown,
        }
    }

    pub fn side(&self) -> (res: Option<LayerSide>)
        ensures
            res == kind_side(self@),
    {
        match self {
            Self::CopperTop | Self::SilkscreenTop | Self::SolderMaskTop | Self::SolderPasteTop => {
                Some(LayerSide::Top)
            },
            Self::CopperBottom
            | Self::SilkscreenBottom
            | Self::SolderMaskBottom
            | Self::SolderPasteBottom => Some(LayerSide::Bottom),
            Self::CopperInner(_) => Some(LayerSide::Inner),
            Self::BoardOutline | Self::Drills | Self::Other | Self::Unknown => None,
        }
    }

    /// Inner copper layer name such as `In1`, if this is an inner copper layer.
    pub fn inner_name(&self) -> (res: Option<&str>)
        ensures
            res matches Some(s) ==> self@ == LayerKind::CopperInner(s@),
            res is None ==> !(self@ is CopperInner),
    {
        match self {
            Self::CopperInner(name) => Some(name.as_str()),
            _ => None,
        }
    }

    /// Back-to-front order for compositing layers in a single view.
    pub fn stack_order(&self) -> (res: u8)
        ensures
            res == kind_stack_order(self@),
    {
        match self {
            Self::SolderPasteBottom => 0,
            Self::SilkscreenBottom => 1,
            Self::SolderMaskBottom => 2,
            Self::CopperBottom => 3,
            Self::CopperInner(_) => 4,
            Self::Other | Self::Unknown => 5,
            Self::CopperTop => 6,
            Self::SolderMaskTop => 7,
            Self::SilkscreenTop => 8,
            Self::SolderPasteTop => 9,
            Self::Drills => 10,
            Self::BoardOutline => 11,
        }
    }
}

/// Back-to-front compositing: every bottom-side layer lies below every inner
/// copper layer, which lies below every top-side layer; drills and the board
/// outline lie above all sided layers.
pub proof fn lemma_stack_order_follows_sides(a: LayerKind, b: LayerKind)
    ensures
        kind_side(a) == Some(LayerSide::Bottom) && kind_side(b) == Some(LayerSide::Inner)
            ==> kind_stack_order(a) < kind_stack_order(b),
        kind_side(a) == Some(LayerSide::Inner) && kind_side(b) == Some(LayerSide::Top)
            ==> kind_stack_order(a) < kind_stack_order(b),
        kind_side(a) == Some(LayerSide::Bottom) && kind_side(b) == Some(LayerSide::Top)
            ==> kind_stack_order(a) < kind_stack_order(b),
        kind_side(a) is Some && (b is Drills || b is BoardOutline)
            ==> kind_stack_order(a) < kind_stack_order(b),
{
}

/// A layer has a side exactly when its function is copper, silkscreen, solder
/// mask or paste; only copper layers are inner layers.
pub proof fn lemma_side_matches_function(k: LayerKind)
    ensures
        kind_side(k) is Some <==> (kind_function(k) == LayerFunction::Copper
            || kind_function(k) == LayerFunction::Silkscreen
            || kind_function(k) == LayerFunction::SolderMask
            || kind_function(k) == LayerFunction::SolderPaste),
        kind_side(k) == Some(LayerSide::Inner) <==> k is CopperInner,
        k is CopperInner ==> kind_function(k) == LayerFunction::Copper,
{
}

/// What follows the last `c` of `q`, `c` and a `c`-free `n` is `n`.
proof fn lemma_after_last_separator(q: Seq<char>, c: char, n: Seq<char>)
    requires
        forall|j: int| 0 <= j < n.len() ==> n[j] != c,
    ensures
        after_last(q + seq![c] + n, c) == n,
{
    let s = q + seq![c] + n;
    let k = q.len() as int;
    assert(0 <= k < s.len() && s[k] == c);
    let i = last_char_index(s, c)->0;
    assert(i == k) by {
        if i > k {
            assert(s[i] == n[i - k - 1]);
        }
    }
    assert(s.subrange(k + 1, s.len() as int) =~= n);
}

/// A name without separators is its own base name.
proof fn lemma_base_name_plain(n: Seq<char>)
    requires
        forall|j: int| 0 <= j < n.len() ==> n[j] != '/' && n[j] != '\\',
    ensures
        base_name(n) == n,
{
}

/// A character that occurs in `s` has a last occurrence.
proof fn lemma_last_occurrence(s: Seq<char>, c: char, i: int)
    requires
        0 <= i < s.len(),
        s[i] == c,
    ensures
        exists|m: int| 0 <= m < s.len() && s[m] == c && forall|j: int| m < j < s.len() ==> s[j] != c,
    decreases s.len() - i,
{
    if exists|j: int| i < j < s.len() && s[j] == c {
        let j = choose|j: int| i < j < s.len() && s[j] == c;
        lemma_last_occurrence(s, c, j);
    } else {
        assert(forall|j: int| i < j < s.len() ==> s[j] != c);
    }
}

/// The base name of a path ending in `\` and a name is that name.
proof fn lemma_base_name_after_backslash(dir: Seq<char>, name: Seq<char>)
    requires
        forall|j: int| 0 <= j < name.len() ==> name[j] != '/' && name[j] != '\\',
    ensures
        base_name(dir + seq!['\\'] + name) == name,
{
    let s = dir + seq!['\\'] + name;
    let k = dir.len() as int;
    assert forall|j: int| 0 <= j < name.len() implies name[j] != '\\' by {}
    if exists|w: int| 0 <= w < s.len() && s[w] == '/' {
        let w = choose|w: int| 0 <= w < s.len() && s[w] == '/';
        lemma_last_occurrence(s, '/', w);
        let i = last_char_index(s, '/')->0;
        assert(0 <= i < s.len() && s[i] == '/');
        assert(i < k) by {
            if i > k {
                assert(s[i] == name[i - k - 1]);
            }
        }
        let rest = dir.subrange(i + 1, k);
        assert(s.subrange(i + 1, s.len() as int) =~= rest + seq!['\\'] + name);
        lemma_after_last_separator(rest, '\\', name);
    } else {
        lemma_after_last_separator(dir, '\\', name);
    }
}

/// The base name of a path ending in `/` and a name is that name.
proof fn lemma_base_name_after_slash(dir: Seq<char>, name: Seq<char>)
    requires
        forall|j: int| 0 <= j < name.len() ==> name[j] != '/' && name[j] != '\\',
    ensures
        base_name(dir + seq!['/'] + name) == name,
{
    assert forall|j: int| 0 <= j < name.len() implies name[j] != '/' by {}
    lemma_after_last_separator(dir, '/', name);
    lemma_base_name_plain(name);
}

/// Only the last path component decides a file's layer: a directory before
/// a `/` or a `\` leaves the base name, and so the layer kind, unchanged.
pub proof fn lemma_directory_prefix_ignored(dir: Seq<char>, name: Seq<char>)
    requires
        forall|j: int| 0 <= j < name.len() ==> name[j] != '/' && name[j] != '\\',
    ensures
        base_name(dir + seq!['/'] + name) == base_name(name),
        base_name(dir + seq!['\\'] + name) == base_name(name),
        filename_kind(lowercase(base_name(dir + seq!['/'] + name))) == filename_kind(lowercase(base_name(name))),
        filename_kind(lowercase(base_name(dir + seq!['\\'] + name))) == filename_kind(lowercase(base_name(name))),
{
    lemma_base_name_plain(name);
    lemma_base_name_after_slash(dir, name);
    lemma_base_name_after_backslash(dir, name);
}

/// File names are classified without regard to ASCII letter case: two
/// all-ASCII base names that differ only in the case of their letters get
/// the same kind.
pub proof fn lemma_ascii_case_ignored(a: Seq<char>, b: Seq<char>)
    requires
        all_ascii(a),
        all_ascii(b),
        a.len() == b.len(),
        forall|i: int| 0 <= i < a.len() ==> ascii_lower(#[trigger] a[i]) == ascii_lower(b[i]),
    ensures
        filename_kind(a.map_values(|c: char| ascii_lower(c))) == filename_kind(b.map_values(|c: char| ascii_lower(c))),
{
    assert(a.map_values(|c: char| ascii_lower(c)) =~= b.map_values(|c: char| ascii_lower(c)));
}

/// How far out from the board's core a layer function lies on its side:
/// copper, then solder mask, then silkscreen printed on the mask, then paste.
pub open spec fn build_up_rank(f: LayerFunction) -> int {
    match f {
        LayerFunction::Copper => 0,
        LayerFunction::SolderMask => 1,
        LayerFunction::Silkscreen => 2,
        LayerFunction::SolderPaste => 3,
        _ => 4,
    }
}

/// Within each side the stack follows the physical build-up: on the top a
/// layer further out lies higher in the back-to-front stack, on the bottom
/// (seen from the top) a layer further out lies lower.
pub proof fn lemma_stack_follows_build_up(a: LayerKind, b: LayerKind)
    ensures
        kind_side(a) == Some(LayerSide::Top) && kind_side(b) == Some(LayerSide::Top)
            && build_up_rank(kind_function(a)) < build_up_rank(kind_function(b))
            ==> kind_stack_order(a) < kind_stack_order(b),
        kind_side(a) == Some(LayerSide::Bottom) && kind_side(b) == Some(LayerSide::Bottom)
            && build_up_rank(kind_function(a)) < build_up_rank(kind_function(b))
            ==> kind_stack_order(a) > kind_stack_order(b),
        kind_side(a) == Some(LayerSide::Inner) && kind_side(b) is None && kind_function(b) != LayerFunction::Drill
            && kind_function(b) != LayerFunction::Outline ==> kind_stack_order(a) < kind_stack_order(b),
        kind_side(a) is None && kind_function(a) != LayerFunction::Drill && kind_function(a) != LayerFunction::Outline
            && kind_side(b) == Some(LayerSide::Top) ==> kind_stack_order(a) < kind_stack_order(b),
        kind_function(a) == LayerFunction::Drill && kind_function(b) == LayerFunction::Outline
            ==> kind_stack_order(a) < kind_stack_order(b),
{
}

/// What `extension_kind` gives for a three-letter extension, from its
/// letters.
proof fn lemma_extension_kind_of(a: char, b: char, c: char)
    ensures
        extension_kind(seq![a, b, c]) == extension_kind_letters(a, b, c),
{
    reveal_strlit("gtl");
    reveal_strlit("gbl");
    reveal_strlit("cmp");
    reveal_strlit("sol");
    reveal_strlit("g1");
    reveal_strlit("g2");
    reveal_strlit("g3");
    reveal_strlit("g4");
    reveal_strlit("g5");
    reveal_strlit("g6");
    reveal_strlit("g7");
    reveal_strlit("g8");
    reveal_strlit("gto");
    reveal_strlit("plc");
    reveal_strlit("gbo");
    reveal_strlit("pls");
    reveal_strlit("gts");
    reveal_strlit("stc");
    reveal_strlit("gbs");
    reveal_strlit("sts");
    reveal_strlit("gtp");
    reveal_strlit("gbp");
    reveal_strlit("gko");
    reveal_strlit("dim");
    let e = seq![a, b, c];
    assert(e[0] == a && e[1] == b && e[2] == c);
    assert("gtl"@[0] == 'g' && "gtl"@[1] == 't' && "gtl"@[2] == 'l');
    if a == 'g' && b == 't' && c == 'l' {
        assert(e =~= "gtl"@);
    }
    assert("gbl"@[0] == 'g' && "gbl"@[1] == 'b' && "gbl"@[2] == 'l');
    if a == 'g' && b == 'b' && c == 'l' {
        assert(e =~= "gbl"@);
    }
    assert("cmp"@[0] == 'c' && "cmp"@[1] == 'm' && "cmp"@[2] == 'p');
    if a == 'c' && b == 'm' && c == 'p' {
        assert(e =~= "cmp"@);
    }
    assert("sol"@[0] == 's' && "sol"@[1] == 'o' && "sol"@[2] == 'l');
    if a == 's' && b == 'o' && c == 'l' {
        assert(e =~= "sol"@);
    }
    assert("gto"@[0] == 'g' && "gto"@[1] == 't' && "gto"@[2] == 'o');
    if a == 'g' && b == 't' && c == 'o' {
        assert(e =~= "gto"@);
    }
    assert("plc"@[0] == 'p' && "plc"@[1] == 'l' && "plc"@[2] == 'c');
    if a == 'p' && b == 'l' && c == 'c' {
        assert(e =~= "plc"@);
    }
    assert("gbo"@[0] == 'g' && "gbo"@[1] == 'b' && "gbo"@[2] == 'o');
    if a == 'g' && b == 'b' && c == 'o' {
        assert(e =~= "gbo"@);
    }
    assert("pls"@[0] == 'p' && "pls"@[1] == 'l' && "pls"@[2] == 's');
    if a == 'p' && b == 'l' && c == 's' {
        assert(e =~= "pls"@);
    }
    assert("gts"@[0] == 'g' && "gts"@[1] == 't' && "gts"@[2] == 's');
    if a == 'g' && b == 't' && c == 's' {
        assert(e =~= "gts"@);
    }
    assert("stc"@[0] == 's' && "stc"@[1] == 't' && "stc"@[2] == 'c');
    if a == 's' && b == 't' && c == 'c' {
        assert(e =~= "stc"@);
    }
    assert("gbs"@[0] == 'g' && "gbs"@[1] == 'b' && "gbs"@[2] == 's');
    if a == 'g' && b == 'b' && c == 's' {
        assert(e =~= "gbs"@);
    }
    assert("sts"@[0] == 's' && "sts"@[1] == 't' && "sts"@[2] == 's');
    if a == 's' && b == 't' && c == 's' {
        assert(e =~= "sts"@);
    }
    assert("gtp"@[0] == 'g' && "gtp"@[1] == 't' && "gtp"@[2] == 'p');
    if a == 'g' && b == 't' && c == 'p' {
        assert(e =~= "gtp"@);
    }
    assert("gbp"@[0] == 'g' && "gbp"@[1] == 'b' && "gbp"@[2] == 'p');
    if a == 'g' && b == 'b' && c == 'p' {
        assert(e =~= "gbp"@);
    }
    assert("gko"@[0] == 'g' && "gko"@[1] == 'k' && "gko"@[2] == 'o');
    if a == 'g' && b == 'k' && c == 'o' {
        assert(e =~= "gko"@);
    }
    assert("dim"@[0] == 'd' && "dim"@[1] == 'i' && "dim"@[2] == 'm');
    if a == 'd' && b == 'i' && c == 'm' {
        assert(e =~= "dim"@);
    }
}

/// `extension_kind` of three letters, written per letter.
spec fn extension_kind_letters(a: char, b: char, c: char) -> Option<LayerKind> {
    if (a, b, c) == ('g', 't', 'l') || (a, b, c) == ('c', 'm', 'p') {
        Some(LayerKind::CopperTop)
    } else if (a, b, c) == ('g', 'b', 'l') || (a, b, c) == ('s', 'o', 'l') {
        Some(LayerKind::CopperBottom)
    } else if (a, b, c) == ('g', 't', 'o') || (a, b, c) == ('p', 'l', 'c') {
        Some(LayerKind::SilkscreenTop)
    } else if (a, b, c) == ('g', 'b', 'o') || (a, b, c) == ('p', 'l', 's') {
        Some(LayerKind::SilkscreenBottom)
    } else if (a, b, c) == ('g', 't', 's') || (a, b, c) == ('s', 't', 'c') {
        Some(LayerKind::SolderMaskTop)
    } else if (a, b, c) == ('g', 'b', 's') || (a, b, c) == ('s', 't', 's') {
        Some(LayerKind::SolderMaskBottom)
    } else if (a, b, c) == ('g', 't', 'p') {
        Some(LayerKind::SolderPasteTop)
    } else if (a, b, c) == ('g', 'b', 'p') {
        Some(LayerKind::SolderPasteBottom)
    } else if (a, b, c) == ('g', 'k', 'o') || (a, b, c) == ('d', 'i', 'm') {
        Some(LayerKind::BoardOutline)
    } else {
        None
    }
}

/// The side a letter of an Altium/Protel extension names: `t` top, `b` bottom.
pub open spec fn altium_side_letter(c: char) -> Option<LayerSide> {
    if c == 't' {
        Some(LayerSide::Top)
    } else if c == 'b' {
        Some(LayerSide::Bottom)
    } else {
        None
    }
}

/// The function the last letter of an Altium/Protel extension names:
/// `l` copper (layer), `o` silkscreen (overlay), `s` solder mask, `p` paste.
pub open spec fn altium_function_letter(c: char) -> Option<LayerFunction> {
    if c == 'l' {
        Some(LayerFunction::Copper)
    } else if c == 'o' {
        Some(LayerFunction::Silkscreen)
    } else if c == 's' {
        Some(LayerFunction::SolderMask)
    } else if c == 'p' {
        Some(LayerFunction::SolderPaste)
    } else {
        None
    }
}

/// An Altium/Protel extension `g<side><function>` names a layer of exactly
/// that side and that function.
pub proof fn lemma_altium_extension_letters(side: char, func: char)
    requires
        altium_side_letter(side) is Some,
        altium_function_letter(func) is Some,
    ensures
        extension_kind(seq!['g', side, func]) matches Some(k) && kind_side(k) == altium_side_letter(side)
            && Some(kind_function(k)) == altium_function_letter(func),
{
    lemma_extension_kind_of('g', side, func);
}

/// Altium/Protel `g1`..`g8` name the inner copper layers `In1`..`In8`, and
/// `gko` (keep-out) and Eagle's `dim` (dimension) name the board outline.
pub proof fn lemma_inner_and_outline_extensions(d: char)
    requires
        '1' <= d <= '8',
    ensures
        extension_kind(seq!['g', d]) == Some(LayerKind::CopperInner(seq!['I', 'n', d])),
        extension_kind(seq!['g', 'k', 'o']) matches Some(k) && kind_function(k) == LayerFunction::Outline
            && kind_side(k) is None,
        extension_kind(seq!['d', 'i', 'm']) matches Some(k) && kind_function(k) == LayerFunction::Outline
            && kind_side(k) is None,
{
    lemma_extension_kind_of('g', 'k', 'o');
    lemma_extension_kind_of('d', 'i', 'm');
    reveal_strlit("gtl");
    reveal_strlit("gbl");
    reveal_strlit("cmp");
    reveal_strlit("sol");
    reveal_strlit("In");
    let e = seq!['g', d];
    assert(e.len() == 2 && e[0] == 'g' && e[1] == d);
    assert(e.subrange(1, 2) =~= seq![d]);
    assert("In"@ + seq![d] =~= seq!['I', 'n', d]);
    if d == '1' {
        reveal_strlit("g1");
        assert(e =~= "g1"@);
    } else if d == '2' {
        reveal_strlit("g1");
        reveal_strlit("g2");
        assert(e =~= "g2"@);
        assert("g1"@[1] != e[1]);
    } else if d == '3' {
        reveal_strlit("g1");
        reveal_strlit("g2");
        reveal_strlit("g3");
        assert(e =~= "g3"@);
        assert("g1"@[1] != e[1] && "g2"@[1] != e[1]);
    } else if d == '4' {
        reveal_strlit("g1");
        reveal_strlit("g2");
        reveal_strlit("g3");
        reveal_strlit("g4");
        assert(e =~= "g4"@);
        assert("g1"@[1] != e[1] && "g2"@[1] != e[1] && "g3"@[1] != e[1]);
    } else if d == '5' {
        reveal_strlit("g1");
        reveal_strlit("g2");
        reveal_strlit("g3");
        reveal_strlit("g4");
        reveal_strlit("g5");
        assert(e =~= "g5"@);
        assert("g1"@[1] != e[1] && "g2"@[1] != e[1] && "g3"@[1] != e[1] && "g4"@[1] != e[1]);
    } else if d == '6' {
        reveal_strlit("g1");
        reveal_strlit("g2");
        reveal_strlit("g3");
        reveal_strlit("g4");
        reveal_strlit("g5");
        reveal_strlit("g6");
        assert(e =~= "g6"@);
        assert("g1"@[1] != e[1] && "g2"@[1] != e[1] && "g3"@[1] != e[1] && "g4"@[1] != e[1] && "g5"@[1] != e[1]);
    } else if d == '7' {
        reveal_strlit("g1");
        reveal_strlit("g2");
        reveal_strlit("g3");
        reveal_strlit("g4");
        reveal_strlit("g5");
        reveal_strlit("g6");
        reveal_strlit("g7");
        assert(e =~= "g7"@);
        assert("g1"@[1] != e[1] && "g2"@[1] != e[1] && "g3"@[1] != e[1] && "g4"@[1] != e[1] && "g5"@[1] != e[1]
            && "g6"@[1] != e[1]);
    } else {
        reveal_strlit("g1");
        reveal_strlit("g2");
        reveal_strlit("g3");
        reveal_strlit("g4");
        reveal_strlit("g5");
        reveal_strlit("g6");
        reveal_strlit("g7");
        reveal_strlit("g8");
        assert(e =~= "g8"@);
        assert("g1"@[1] != e[1] && "g2"@[1] != e[1] && "g3"@[1] != e[1] && "g4"@[1] != e[1] && "g5"@[1] != e[1]
            && "g6"@[1] != e[1] && "g7"@[1] != e[1]);
    }
}

/// The side the last letter of an Eagle CAM extension names: `c` the
/// component side (top), `s` the solder side (bottom).
pub open spec fn eagle_side_letter(c: char) -> Option<LayerSide> {
    if c == 'c' {
        Some(LayerSide::Top)
    } else if c == 's' {
        Some(LayerSide::Bottom)
    } else {
        None
    }
}

/// Eagle CAM extensions `pl<side>` (silkscreen placement) and `st<side>`
/// (solder stop mask) name that function on the side their last letter
/// names; `cmp` and `sol` are the component-side and solder-side copper.
pub proof fn lemma_eagle_extension_letters(side: char)
    requires
        eagle_side_letter(side) is Some,
    ensures
        extension_kind(seq!['p', 'l', side]) matches Some(k) && kind_side(k) == eagle_side_letter(side)
            && kind_function(k) == LayerFunction::Silkscreen,
        extension_kind(seq!['s', 't', side]) matches Some(k) && kind_side(k) == eagle_side_letter(side)
            && kind_function(k) == LayerFunction::SolderMask,
        extension_kind(seq!['c', 'm', 'p']) matches Some(k) && kind_side(k) == eagle_side_letter('c')
            && kind_function(k) == LayerFunction::Copper,
        extension_kind(seq!['s', 'o', 'l']) matches Some(k) && kind_side(k) == eagle_side_letter('s')
            && kind_function(k) == LayerFunction::Copper,
{
    lemma_extension_kind_of('p', 'l', side);
    lemma_extension_kind_of('s', 't', side);
    lemma_extension_kind_of('c', 'm', 'p');
    lemma_extension_kind_of('s', 'o', 'l');
}

// ───────────────────────────── identification ─────────────────────────────

/// "In" followed by the decimal form of `n`.
fn inner_name_of(n: u64) -> (res: String)
    ensures
        res@ == "In"@ + decimal(n as nat),
{
    let mut s = to_string("In");
    let d = decimal_chars(n);
    push_chars(&mut s, &d);
    s
}

/// Identify layer type from a Gerber X2 FileFunction attribute.
pub fn identify_from_x2(func: &FileFunction) -> (res: GerberLayerType)
    ensures
        res@ == x2_kind(*func),
{
    match func {
        FileFunction::Copper { side, layer_num } => match side {
            CopperSide::Top => GerberLayerType::CopperTop,
            CopperSide::Bottom => GerberLayerType::CopperBottom,
            // X2 numbers physical layers from the top (L1), so L2 is the first inner
            // layer, which KiCad and Altium call In1.
            CopperSide::Inner => {
                let prev = if *layer_num >= 1 { *layer_num - 1 } else { 0 };
                let n = if prev >= 1 { prev } else { 1 };
                GerberLayerType::CopperInner(inner_name_of(n as u64))
            },
        },
        FileFunction::Legend { side } => match side {
            BoardSide::Top => GerberLayerType::SilkscreenTop,
            BoardSide::Bottom => GerberLayerType::SilkscreenBottom,
        },
        FileFunction::SolderMask { side } => match side {
            BoardSide::Top => GerberLayerType::SolderMaskTop,
            BoardSide::Bottom => GerberLayerType::SolderMaskBottom,
        },
        FileFunction::Paste { side } => match side {
            BoardSide::Top => GerberLayerType::SolderPasteTop,
            BoardSide::Bottom => GerberLayerType::SolderPasteBottom,
        },
        FileFunction::Profile => GerberLayerType::BoardOutline,
        FileFunction::Other(function) => {
            let f = chars_of(function.as_str());
            if f.len() == 0 {
                GerberLayerType::Unknown
            } else if eq_str(&f, "Plated") || eq_str(&f, "NonPlated") {
                // Drill and rout data written as Gerber.
                GerberLayerType::Drills
            } else {
                // Any other declared function (Other, Glue, AssemblyDrawing, Keep-out, ...)
                // is documentation rather than fabrication artwork.
                GerberLayerType::Other
            }
        },
    }
}

/// Layer type named by a lower-case file extension.
fn layer_from_extension(ext: &[char]) -> (res: Option<GerberLayerType>)
    ensures
        res matches Some(t) ==> extension_kind(ext@) == Some(t@),
        res is None ==> extension_kind(ext@) is None,
{
    if eq_str(ext, "gtl") || eq_str(ext, "cmp") {
        Some(GerberLayerType::CopperTop)
    } else if eq_str(ext, "gbl") || eq_str(ext, "sol") {
        Some(GerberLayerType::CopperBottom)
    } else if eq_str(ext, "g1") || eq_str(ext, "g2") || eq_str(ext, "g3") || eq_str(ext, "g4")
        || eq_str(ext, "g5") || eq_str(ext, "g6") || eq_str(ext, "g7") || eq_str(ext, "g8") {
        proof {
            reveal_strlit("g1"); reveal_strlit("g2"); reveal_strlit("g3"); reveal_strlit("g4");
            reveal_strlit("g5"); reveal_strlit("g6"); reveal_strlit("g7"); reveal_strlit("g8");
        }
        let mut s = to_string("In");
        let num = slice_chars(ext, 1, ext.len());
        push_chars(&mut s, &num);
        Some(GerberLayerType::CopperInner(s))
    } else if eq_str(ext, "gto") || eq_str(ext, "plc") {
        Some(GerberLayerType::SilkscreenTop)
    } else if eq_str(ext, "gbo") || eq_str(ext, "pls") {
        Some(GerberLayerType::SilkscreenBottom)
    } else if eq_str(ext, "gts") || eq_str(ext, "stc") {
        Some(GerberLayerType::SolderMaskTop)
    } else if eq_str(ext, "gbs") || eq_str(ext, "sts") {
        Some(GerberLayerType::SolderMaskBottom)
    } else if eq_str(ext, "gtp") {
        Some(GerberLayerType::SolderPasteTop)
    } else if eq_str(ext, "gbp") {
        Some(GerberLayerType::SolderPasteBottom)
    } else if eq_str(ext, "gko") || eq_str(ext, "dim") {
        Some(GerberLayerType::BoardOutline)
    } else {
        None
    }
}

/// Board side named in a filename: "top"/"front" or "bottom"/"bot"/"back".
fn name_side(lower: &[char]) -> (res: Option<LayerSide>)
    ensures
        res == name_side_spec(lower@),
{
    if contains_str(lower, "top") || contains_str(lower, "front") {
        Some(LayerSide::Top)
    } else if contains_str(lower, "bot") || contains_str(lower, "back") {
        Some(LayerSide::Bottom)
    } else {
        None
    }
}

proof fn lemma_leading_digits(s: Seq<char>, k: int)
    requires
        0 <= k <= s.len(),
        all_digits(s.take(k)),
        k == s.len() || !is_digit(s[k]),
    ensures
        leading_digits(s) == k,
    decreases k,
{
    if k > 0 {
        assert(is_digit(s.take(k)[0]));
        assert forall|i: int| 0 <= i < k - 1 implies is_digit(#[trigger] s.drop_first().take(k - 1)[i]) by {
            assert(s.drop_first().take(k - 1)[i] == s.take(k)[i + 1]);
        }
        lemma_leading_digits(s.drop_first(), k - 1);
    }
}

proof fn lemma_trim_separators(s: Seq<char>, k: int)
    requires
        0 <= k <= s.len(),
        forall|i: int| 0 <= i < k ==> (s[i] == '_' || s[i] == '-'),
        k == s.len() || !(s[k] == '_' || s[k] == '-'),
    ensures
        trim_separators(s) == s.subrange(k, s.len() as int),
    decreases k,
{
    if k > 0 {
        lemma_trim_separators(s.drop_first(), k - 1);
        assert(s.drop_first().subrange(k - 1, s.drop_first().len() as int) =~= s.subrange(k, s.len() as int));
    } else {
        assert(s.subrange(0, s.len() as int) =~= s);
    }
}

/// Allegro-style numbered copper artwork: `l1_top.art`, `l3.art`,
/// `l6_bottom.art`, `layer2.gbr`. L1 is the top, and unsuffixed Ln (n > 1) is
/// inner layer In(n-1).
fn numbered_copper(lower: &[char]) -> (res: Option<GerberLayerType>)
    ensures
        res matches Some(t) ==> numbered_copper_spec(lower@) == Some(t@),
        res is None ==> numbered_copper_spec(lower@) is None,
{
    proof {
        reveal_strlit("layer");
        reveal_strlit("l");
    }
    let stem = before_last_exec(lower, '.');
    let rest = if starts_with_str(&stem, "layer") {
        slice_chars(&stem, 5, stem.len())
    } else if starts_with_str(&stem, "l") {
        slice_chars(&stem, 1, stem.len())
    } else {
        return None;
    };
    let mut d: usize = 0;
    while d < rest.len() && '0' <= rest[d] && rest[d] <= '9'
        invariant
            d <= rest.len(),
            all_digits(rest@.take(d as int)),
        decreases rest.len() - d,
    {
        d += 1;
        assert forall|i: int| 0 <= i < d implies is_digit(#[trigger] rest@.take(d as int)[i]) by {
            if i < d - 1 {
                assert(rest@.take(d as int)[i] == rest@.take(d - 1)[i]);
            }
        }
    }
    proof {
        lemma_leading_digits(rest@, d as int);
    }
    let digits = slice_chars(&rest, 0, d);
    assert(digits@ =~= rest@.take(d as int));
    let n = match parse_unsigned_exec(&digits, 0xffff_ffff) {
        Some(n) => n,
        None => return None,
    };
    let mut s = d;
    while s < rest.len() && (rest[s] == '_' || rest[s] == '-')
        invariant
            d <= s <= rest.len(),
            forall|i: int| d <= i < s ==> (rest@[i] == '_' || rest@[i] == '-'),
        decreases rest.len() - s,
    {
        s += 1;
    }
    let suffix = slice_chars(&rest, s, rest.len());
    proof {
        let tail = rest@.subrange(d as int, rest@.len() as int);
        lemma_trim_separators(tail, (s - d) as int);
        assert(tail.subrange((s - d) as int, tail.len() as int) =~= suffix@);
    }
    match name_side(&suffix) {
        Some(LayerSide::Top) => Some(GerberLayerType::CopperTop),
        Some(LayerSide::Bottom) => Some(GerberLayerType::CopperBottom),
        _ => {
            if suffix.len() == 0 && n == 1 {
                Some(GerberLayerType::CopperTop)
            } else if suffix.len() == 0 {
                let prev: u64 = if n == 0 { 0xffff_ffff } else { n - 1 };
                Some(GerberLayerType::CopperInner(inner_name_of(prev)))
            } else {
                None
            }
        },
    }
}

/// KiCad inner copper name for one separator.
fn kicad_inner_with_exec(lower: &[char], sep: &str) -> (res: Option<String>)
    ensures
        res matches Some(s) ==> kicad_inner_with(lower@, sep@) == Some(s@),
        res is None ==> kicad_inner_with(lower@, sep@) is None,
{
    let sepc = chars_of(sep);
    let pos = match find_chars(lower, &sepc) {
        Some(p) => p,
        None => return None,
    };
    let before = slice_chars(lower, 0, pos);
    assert(before@ =~= lower@.take(pos as int));
    proof {
        reveal_strlit("in");
    }
    let inc = chars_of("in");
    let in_pos = match rfind_chars(&before, &inc) {
        Some(p) => p,
        None => return None,
    };
    let num = slice_chars(&before, in_pos + 2, before.len());
    match parse_unsigned_exec(&num, 0xffff_ffff) {
        Some(n) => Some(inner_name_of(n)),
        None => None,
    }
}

/// Extract KiCad inner copper layer name (e.g., "in1_cu" gives "In1").
fn extract_kicad_inner(lower: &[char]) -> (res: Option<String>)
    ensures
        res matches Some(s) ==> kicad_inner_spec(lower@) == Some(s@),
        res is None ==> kicad_inner_spec(lower@) is None,
{
    match kicad_inner_with_exec(lower, "_cu") {
        Some(n) => Some(n),
        None => kicad_inner_with_exec(lower, ".cu"),
    }
}

fn contains_any2_exec(s: &[char], a: &str, b: &str) -> (res: bool)
    ensures
        res == contains_any2(s@, a@, b@),
{
    contains_str(s, a) || contains_str(s, b)
}

fn contains_any3_exec(s: &[char], a: &str, b: &str, c: &str) -> (res: bool)
    ensures
        res == contains_any3(s@, a@, b@, c@),
{
    contains_str(s, a) || contains_str(s, b) || contains_str(s, c)
}

fn contains_any4_exec(s: &[char], a: &str, b: &str, c: &str, d: &str) -> (res: bool)
    ensures
        res == contains_any4(s@, a@, b@, c@, d@),
{
    contains_str(s, a) || contains_str(s, b) || contains_str(s, c) || contains_str(s, d)
}

/// Generic naming patterns.
fn identify_generic(lower: &[char]) -> (res: GerberLayerType)
    ensures
        res@ == generic_kind(lower@),
{
    let side = name_side(lower);
    if contains_str(lower, "copper") {
        match side {
            Some(LayerSide::Top) => return GerberLayerType::CopperTop,
            Some(LayerSide::Bottom) => return GerberLayerType::CopperBottom,
            _ => {},
        }
    }
    if contains_str(lower, "silk") {
        match side {
            Some(LayerSide::Top) => return GerberLayerType::SilkscreenTop,
            Some(LayerSide::Bottom) => return GerberLayerType::SilkscreenBottom,
            _ => {},
        }
    }
    if contains_str(lower, "mask") {
        match side {
            Some(LayerSide::Top) => return GerberLayerType::SolderMaskTop,
            Some(LayerSide::Bottom) => return GerberLayerType::SolderMaskBottom,
            _ => {},
        }
    }
    if contains_str(lower, "paste") {
        match side {
            Some(LayerSide::Top) => return GerberLayerType::SolderPasteTop,
            Some(LayerSide::Bottom) => return GerberLayerType::SolderPasteBottom,
            _ => {},
        }
    }
    if contains_any2_exec(lower, "outline", "profile") {
        return GerberLayerType::BoardOutline;
    }
    if let Some(layer) = numbered_copper(lower) {
        return layer;
    }
    // Allegro fabrication/assembly drawings.
    let stem = before_last_exec(lower, '.');
    if eq_str(&stem, "fab") || starts_with_str(&stem, "fabnote") || starts_with_str(&stem, "assy") {
        return GerberLayerType::Other;
    }
    GerberLayerType::Unknown
}

/// EasyEDA naming, then the generic patterns.
fn identify_easyeda_or_generic(lower: &[char]) -> (res: GerberLayerType)
    ensures
        res@ == easyeda_or_generic_kind(lower@),
{
    if contains_str(lower, "toplayer") {
        GerberLayerType::CopperTop
    } else if contains_str(lower, "bottomlayer") {
        GerberLayerType::CopperBottom
    } else if contains_str(lower, "topsilk") {
        GerberLayerType::SilkscreenTop
    } else if contains_str(lower, "bottomsilk") {
        GerberLayerType::SilkscreenBottom
    } else if contains_str(lower, "topsoldermask") {
        GerberLayerType::SolderMaskTop
    } else if contains_str(lower, "bottomsoldermask") {
        GerberLayerType::SolderMaskBottom
    } else {
        identify_generic(lower)
    }
}

/// KiCad naming patterns, then EasyEDA and generic ones.
fn identify_kicad_or_later(lower: &[char]) -> (res: GerberLayerType)
    ensures
        res@ == kicad_or_later_kind(lower@),
{
    if contains_any3_exec(lower, "f_cu", "f.cu", "front_cu") {
        return GerberLayerType::CopperTop;
    }
    if contains_any3_exec(lower, "b_cu", "b.cu", "back_cu") {
        return GerberLayerType::CopperBottom;
    }
    // KiCad inner copper: In1_Cu, In2_Cu, etc.
    if let Some(inner) = extract_kicad_inner(lower) {
        return GerberLayerType::CopperInner(inner);
    }
    if contains_any4_exec(lower, "f_silks", "f.silks", "f_silkscreen", "front_silk") {
        return GerberLayerType::SilkscreenTop;
    }
    if contains_any4_exec(lower, "b_silks", "b.silks", "b_silkscreen", "back_silk") {
        return GerberLayerType::SilkscreenBottom;
    }
    if contains_any3_exec(lower, "f_mask", "f.mask", "front_mask") {
        return GerberLayerType::SolderMaskTop;
    }
    if contains_any3_exec(lower, "b_mask", "b.mask", "back_mask") {
        return GerberLayerType::SolderMaskBottom;
    }
    if contains_any3_exec(lower, "f_paste", "f.paste", "front_paste") {
        return GerberLayerType::SolderPasteTop;
    }
    if contains_any3_exec(lower, "b_paste", "b.paste", "back_paste") {
        return GerberLayerType::SolderPasteBottom;
    }
    if contains_any3_exec(lower, "edge_cuts", "edge.cuts", "boardoutline") {
        return GerberLayerType::BoardOutline;
    }
    // KiCad documentation layers: courtyard, fab, adhesive, margin, user drawings.
    if contains_any3_exec(lower, "courtyard", "crtyd", "_fab") || contains_any3_exec(lower, ".fab", "_adhes", ".adhes")
        || contains_any3_exec(lower, "margin", "_user", ".user") || contains_str(lower, "user_") {
        return GerberLayerType::Other;
    }
    identify_easyeda_or_generic(lower)
}

/// Identify the layer type of a file name that is already lower-cased and
/// stripped of directories.
pub fn identify_from_lowercase_name(lower: &str) -> (res: GerberLayerType)
    ensures
        res@ == filename_kind(lower@),
{
    let lc = chars_of(lower);
    // Try extension-based matching first (Altium/Protel conventions)
    let ext = after_last_exec(&lc, '.');
    match layer_from_extension(&ext) {
        Some(t) => t,
        None => identify_kicad_or_later(&lc),
    }
}

/// Identify layer type from filename patterns.
///
/// Handles conventions from Altium/Protel, KiCad, and Eagle.
/// All comparisons are case-insensitive.
pub fn identify_from_filename(filename: &str) -> (res: GerberLayerType)
    ensures
        res@ == filename_kind(lowercase(base_name(filename@))),
        all_ascii(base_name(filename@)) ==> res@ == filename_kind(
            base_name(filename@).map_values(|c: char| ascii_lower(c)),
        ),
{
    // Extract just the filename (strip directory path)
    let fc = chars_of(filename);
    let after_slash = after_last_exec(&fc, '/');
    let name = after_last_exec(&after_slash, '\\');
    let name_s = string_from_chars(&name);
    let lower = to_lowercase(name_s.as_str());
    identify_from_lowercase_name(lower.as_str())
}

} // verus!
