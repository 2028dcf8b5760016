//! Default colours and visibility, and human-readable labels, for each kind
//! of fabrication layer.
use vstd::prelude::*;

use crate::parsers::gerber::layers::{
    base_name, kind_function, kind_side, GerberLayerType, LayerFunction, LayerKind, LayerSide,
};
use crate::text::{
    after_last_exec, chars_of, is_digit, parse_unsigned, parse_unsigned_exec, push_str, string_from_chars, to_string,
};

verus! {

/// The function word of a sided layer label.
pub open spec fn function_word(f: LayerFunction) -> Seq<char> {
    match f {
        LayerFunction::Copper => "copper"@,
        LayerFunction::Silkscreen => "silkscreen"@,
        LayerFunction::SolderMask => "solder mask"@,
        _ => "paste"@,
    }
}

/// The side word of a sided layer label: the inner layer's own name, `Top`,
/// or `Bottom`.
pub open spec fn side_word(k: LayerKind) -> Seq<char> {
    match k {
        LayerKind::CopperInner(name) => name,
        _ => if kind_side(k) == Some(LayerSide::Top) {
            "Top"@
        } else {
            "Bottom"@
        },
    }
}

/// The label of a layer read from the file `source_name`.
pub open spec fn label_spec(k: LayerKind, source_name: Seq<char>) -> Seq<char> {
    match kind_function(k) {
        LayerFunction::Outline => "Board outline"@,
        LayerFunction::Drill => "Drills"@,
        LayerFunction::Other | LayerFunction::Unknown => base_name(source_name),
        f => side_word(k) + " "@ + function_word(f),
    }
}

/// Short human-readable label such as "Top copper" or "In2 copper". Layers without
/// a known fabrication function are labelled with their file name.
pub fn layer_label(layer_type: &GerberLayerType, source_name: &str) -> (res: String)
    ensures
        res@ == label_spec(layer_type@, source_name@),
{
    let function = match layer_type.function() {
        LayerFunction::Copper => "copper",
        LayerFunction::Silkscreen => "silkscreen",
        LayerFunction::SolderMask => "solder mask",
        LayerFunction::SolderPaste => "paste",
        LayerFunction::Outline => return to_string("Board outline"),
        LayerFunction::Drill => return to_string("Drills"),
        LayerFunction::Other | LayerFunction::Unknown => {
            let cs = chars_of(source_name);
            let after_slash = after_last_exec(&cs, '/');
            let file = after_last_exec(&after_slash, '\\');
            return string_from_chars(&file);
        },
    };
    let mut label = match layer_type {
        GerberLayerType::CopperInner(name) => to_string(name.as_str()),
        _ => {
            if layer_type.side() == Some(LayerSide::Top) {
                to_string("Top")
            } else {
                to_string("Bottom")
            }
        },
    };
    push_str(&mut label, " ");
    push_str(&mut label, function);
    label
}

// ───────────────────────────── default style ─────────────────────────────

/// The colour and visibility a layer starts with.
#[derive(Debug, Clone, PartialEq)]
pub struct LayerStyle {
    pub color: String,
    pub visible: bool,
}

/// The colour of the `i`-th inner copper layer colour slot.
pub open spec fn inner_color(i: nat) -> Seq<char> {
    if i == 0 {
        "#c678dd"@
    } else if i == 1 {
        "#56b6c2"@
    } else if i == 2 {
        "#98c379"@
    } else if i == 3 {
        "#e06c75"@
    } else if i == 4 {
        "#61afef"@
    } else {
        "#d19a66"@
    }
}

/// `s` from its first ASCII digit on.
pub open spec fn from_first_digit(s: Seq<char>) -> Seq<char>
    decreases s.len(),
{
    if s.len() > 0 && !is_digit(s[0]) {
        from_first_digit(s.drop_first())
    } else {
        s
    }
}

/// The number of an inner layer name such as `In3`: what follows its leading
/// non-digits read as a number, or 1 when that is not a number.
pub open spec fn inner_number(name: Seq<char>) -> nat {
    match parse_unsigned(from_first_digit(name), usize::MAX as int) {
        Some(n) => n,
        None => 1,
    }
}

/// The default colour of a layer; drills take the background colour so
/// they read as holes, and inner copper layers cycle through six colours.
pub open spec fn default_color(k: LayerKind, background: Seq<char>) -> Seq<char> {
    match k {
        LayerKind::CopperTop => "#d8a03c"@,
        LayerKind::CopperBottom => "#4f8fd6"@,
        LayerKind::CopperInner(name) => {
            let n = inner_number(name);
            inner_color((if n > 0 { n - 1 } else { 0 }) as nat % 6)
        },
        LayerKind::SolderMaskTop => "#2f9e5b"@,
        LayerKind::SolderMaskBottom => "#2f7f9e"@,
        LayerKind::SolderPasteTop => "#b8b8b8"@,
        LayerKind::SolderPasteBottom => "#8c8ca0"@,
        LayerKind::SilkscreenTop => "#f2f2f2"@,
        LayerKind::SilkscreenBottom => "#c9c3e6"@,
        LayerKind::BoardOutline => "#e8d44d"@,
        LayerKind::Drills => background,
        LayerKind::Other => "#9aa4b2"@,
        LayerKind::Unknown => "#e5c07b"@,
    }
}

/// Whether a layer is shown at first: solder mask and paste obscure copper
/// and start hidden, as do declared non-fabrication layers.
pub open spec fn default_visible(k: LayerKind) -> bool {
    match k {
        LayerKind::SolderMaskTop | LayerKind::SolderMaskBottom | LayerKind::SolderPasteTop
        | LayerKind::SolderPasteBottom | LayerKind::Other => false,
        _ => true,
    }
}

fn inner_color_exec(i: usize) -> (res: &'static str)
    requires
        i < 6,
    ensures
        res@ == inner_color(i as nat),
{
    match i {
        0 => "#c678dd",
        1 => "#56b6c2",
        2 => "#98c379",
        3 => "#e06c75",
        4 => "#61afef",
        _ => "#d19a66",
    }
}

fn inner_number_exec(name: &str) -> (res: u64)
    ensures
        res as nat == inner_number(name@),
        res <= usize::MAX,
{
    let cs = chars_of(name);
    let mut start: usize = 0;
    assert(cs@.skip(0) =~= cs@);
    while start < cs.len() && !(cs[start] >= '0' && cs[start] <= '9')
        invariant
            start <= cs@.len(),
            from_first_digit(cs@.skip(start as int)) == from_first_digit(name@),
        decreases cs@.len() - start,
    {
        assert(cs@.skip(start as int).drop_first() =~= cs@.skip(start + 1));
        start += 1;
    }
    let mut rest: Vec<char> = Vec::new();
    let mut k: usize = start;
    while k < cs.len()
        invariant
            start <= k <= cs@.len(),
            rest@ == cs@.subrange(start as int, k as int),
        decreases cs@.len() - k,
    {
        rest.push(cs[k]);
        k += 1;
    }
    assert(rest@ =~= cs@.skip(start as int));
    assert(from_first_digit(rest@) == rest@);
    match parse_unsigned_exec(&rest, usize::MAX as u64) {
        Some(n) => n,
        None => 1,
    }
}

impl LayerStyle {
    fn new(color: &str, visible: bool) -> (res: Self)
        ensures
            res.color@ == color@,
            res.visible == visible,
    {
        LayerStyle { color: to_string(color), visible }
    }

    /// Default style for a layer. Solder mask and paste are hidden by default since
    /// they obscure copper; drills take the background colour so they read as holes.
    pub fn default_for(layer_type: &GerberLayerType, background: &str) -> (res: Self)
        ensures
            res.color@ == default_color(layer_type@, background@),
            res.visible == default_visible(layer_type@),
    {
        match layer_type {
            GerberLayerType::CopperTop => Self::new("#d8a03c", true),
            GerberLayerType::CopperBottom => Self::new("#4f8fd6", true),
            GerberLayerType::CopperInner(name) => {
                let n = inner_number_exec(name.as_str());
                let slot = (if n > 0 { n - 1 } else { 0 }) % 6;
                Self::new(inner_color_exec(slot as usize), true)
            },
            GerberLayerType::SolderMaskTop => Self::new("#2f9e5b", false),
            GerberLayerType::SolderMaskBottom => Self::new("#2f7f9e", false),
            GerberLayerType::SolderPasteTop => Self::new("#b8b8b8", false),
            GerberLayerType::SolderPasteBottom => Self::new("#8c8ca0", false),
            GerberLayerType::SilkscreenTop => Self::new("#f2f2f2", true),
            GerberLayerType::SilkscreenBottom => Self::new("#c9c3e6", true),
            GerberLayerType::BoardOutline => Self::new("#e8d44d", true),
            GerberLayerType::Drills => Self::new(background, true),
            GerberLayerType::Other => Self::new("#9aa4b2", false),
            GerberLayerType::Unknown => Self::new("#e5c07b", true),
        }
    }
}

} // verus!
