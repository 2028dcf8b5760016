//! Gerber commands: the vocabulary (polarity, board sides, coordinate
//! formats, apertures, X2 file-function attributes) and the parser that turns
//! a token stream into commands. Decimal parameters are kept as their text,
//! checked against the grammar of 64-bit floats.
use vstd::prelude::*;

use crate::text::{
    all_digits, chars_of, digits_value, eq_chars, eq_str, first_index, is_digit, nth_field,
    nth_field_exec, parse_unsigned, parse_unsigned_exec, slice_chars, starts_with,
    starts_with_str, string_from_chars, trim,
};
use crate::error::ExtractError;
use super::excellon::{float_syntax, is_float_text};
use super::lexer::{token_views, GerberToken, TokenView};

verus! {

/// Layer polarity from %LP command.
#[derive(Debug, Clone, Copy, PartialEq, Eq, Structural)]
pub enum Polarity {
    Dark,
    Clear,
}

/// Board side for non-copper layers.
#[derive(Debug, Clone, Copy, PartialEq, Eq, Structural)]
pub enum BoardSide {
    Top,
    Bottom,
}

/// Copper layer side.
#[derive(Debug, Clone, Copy, PartialEq, Eq, Structural)]
pub enum CopperSide {
    Top,
    Bottom,
    Inner,
}

/// Parsed Gerber X2 FileFunction attribute.
#[derive(Debug, Clone, PartialEq)]
pub enum FileFunction {
    Copper { layer_num: u32, side: CopperSide },
    Legend { side: BoardSide },
    SolderMask { side: BoardSide },
    Paste { side: BoardSide },
    Profile,
    Other(String),
}

/// Coordinate format from the %FS (Format Specification) command.
///
/// Example: `%FSLAX24Y24*%` means leading-zero suppression, absolute mode,
/// 2 integer digits + 4 decimal digits for both X and Y.
#[derive(Debug, Clone, Copy, PartialEq, Eq, Structural)]
pub struct CoordinateFormat {
    pub x_integer: u8,
    pub x_decimal: u8,
    pub y_integer: u8,
    pub y_decimal: u8,
}

impl Default for CoordinateFormat {
    /// The common 2.4 format (`FSLAX24Y24`).
    fn default() -> (res: Self)
        ensures
            res == (CoordinateFormat { x_integer: 2, x_decimal: 4, y_integer: 2, y_decimal: 4 }),
    {
        CoordinateFormat { x_integer: 2, x_decimal: 4, y_integer: 2, y_decimal: 4 }
    }
}

/// Unit system from the %MO command.
#[derive(Debug, Clone, Copy, PartialEq, Eq, Structural)]
pub enum Units {
    Millimeters,
    Inches,
}

impl Default for Units {
    fn default() -> (res: Self)
        ensures
            res == Units::Millimeters,
    {
        Units::Millimeters
    }
}

// ───────────────────────────── X2 file function ─────────────────────────────

/// The board side a `FileFunction` field names: `Bot` or `Bottom` is the
/// bottom; anything else, or no field, is the top.
pub open spec fn board_side_spec(s: Option<Seq<char>>) -> BoardSide {
    match s {
        Some(f) => if f == "Bot"@ || f == "Bottom"@ {
            BoardSide::Bottom
        } else {
            BoardSide::Top
        },
        None => BoardSide::Top,
    }
}

/// The layer number of a copper `FileFunction`: the digits after `L` in the
/// second field, or 1 when they are missing or not a `u32`.
pub open spec fn copper_layer_num(body: Seq<char>) -> u32 {
    match nth_field(body, ',', 1) {
        Some(f) => if starts_with(f, "L"@) && parse_unsigned(f.drop_first(), u32::MAX as int) is Some {
            parse_unsigned(f.drop_first(), u32::MAX as int)->0 as u32
        } else {
            1
        },
        None => 1,
    }
}

/// The side of a copper `FileFunction`: named by the third field, or else
/// the top for layer 1 and inner for any other layer.
pub open spec fn copper_side(body: Seq<char>) -> CopperSide {
    let n = copper_layer_num(body);
    match nth_field(body, ',', 2) {
        Some(f) => if f == "Top"@ {
            CopperSide::Top
        } else if f == "Bot"@ || f == "Bottom"@ {
            CopperSide::Bottom
        } else if f == "Inr"@ || f == "Inner"@ {
            CopperSide::Inner
        } else if n == 1 {
            CopperSide::Top
        } else {
            CopperSide::Inner
        },
        None => if n == 1 {
            CopperSide::Top
        } else {
            CopperSide::Inner
        },
    }
}

/// The `FileFunction` an X2 `%TF.FileFunction,...*%` attribute declares. The
/// fields follow the `TF.FileFunction,` prefix, separated by commas.
pub open spec fn file_function_spec(content: Seq<char>) -> FileFunctionView {
    let body = if starts_with(content, "TF.FileFunction,"@) {
        content.skip(16)
    } else {
        Seq::empty()
    };
    let kind = nth_field(body, ',', 0)->0;
    if kind == "Copper"@ {
        FileFunctionView::Copper { layer_num: copper_layer_num(body), side: copper_side(body) }
    } else if kind == "Legend"@ {
        FileFunctionView::Legend { side: board_side_spec(nth_field(body, ',', 1)) }
    } else if kind == "Soldermask"@ {
        FileFunctionView::SolderMask { side: board_side_spec(nth_field(body, ',', 1)) }
    } else if kind == "Paste"@ {
        FileFunctionView::Paste { side: board_side_spec(nth_field(body, ',', 1)) }
    } else if kind == "Profile"@ {
        FileFunctionView::Profile
    } else {
        FileFunctionView::Other(kind)
    }
}

/// The mathematical content of a [`FileFunction`].
pub enum FileFunctionView {
    Copper { layer_num: u32, side: CopperSide },
    Legend { side: BoardSide },
    SolderMask { side: BoardSide },
    Paste { side: BoardSide },
    Profile,
    Other(Seq<char>),
}

impl View for FileFunction {
    type V = FileFunctionView;

    open spec fn view(&self) -> FileFunctionView {
        match self {
            FileFunction::Copper { layer_num, side } => FileFunctionView::Copper { layer_num: *layer_num, side: *side },
            FileFunction::Legend { side } => FileFunctionView::Legend { side: *side },
            FileFunction::SolderMask { side } => FileFunctionView::SolderMask { side: *side },
            FileFunction::Paste { side } => FileFunctionView::Paste { side: *side },
            FileFunction::Profile => FileFunctionView::Profile,
            FileFunction::Other(s) => FileFunctionView::Other(s@),
        }
    }
}

/// The board side a `FileFunction` field names.
pub fn parse_board_side(s: Option<&[char]>) -> (res: BoardSide)
    ensures
        res == board_side_spec(match s {
            Some(f) => Some(f@),
            None => None,
        }),
{
    match s {
        Some(f) => if eq_str(f, "Bot") || eq_str(f, "Bottom") {
            BoardSide::Bottom
        } else {
            BoardSide::Top
        },
        None => BoardSide::Top,
    }
}

fn field_side(body: &[char], n: usize) -> (res: BoardSide)
    ensures
        res == board_side_spec(nth_field(body@, ',', n as nat)),
{
    match nth_field_exec(body, ',', n) {
        Some(f) => parse_board_side(Some(f.as_slice())),
        None => parse_board_side(None),
    }
}

/// Parses an X2 `TF.FileFunction` attribute (the text between `%` and `*`).
#[verifier::rlimit(40)]
pub fn parse_file_function(content: &str) -> (res: FileFunction)
    ensures
        res@ == file_function_spec(content@),
{
    proof {
        reveal_strlit("TF.FileFunction,");
        reveal_strlit("L");
    }
    let cs = chars_of(content);
    let body: Vec<char> = if starts_with_str(&cs, "TF.FileFunction,") {
        slice_chars(&cs, 16, cs.len())
    } else {
        Vec::new()
    };
    assert(body@ == (if starts_with(content@, "TF.FileFunction,"@) { content@.skip(16) } else { Seq::<char>::empty() }));
    proof {
        crate::text::lemma_nth_field_first(body@, ',');
    }
    let kind = match nth_field_exec(&body, ',', 0) {
        Some(k) => k,
        None => Vec::new(),
    };
    if eq_str(&kind, "Copper") {
        let layer_num: u32 = match nth_field_exec(&body, ',', 1) {
            Some(f) => {
                if starts_with_str(&f, "L") {
                    let digits = slice_chars(&f, 1, f.len());
                    assert(digits@ == f@.drop_first());
                    match parse_unsigned_exec(&digits, 0xffff_ffff) {
                        Some(v) => v as u32,
                        None => 1,
                    }
                } else {
                    1
                }
            },
            None => 1,
        };
        let side = match nth_field_exec(&body, ',', 2) {
            Some(f) => {
                if eq_str(&f, "Top") {
                    CopperSide::Top
                } else if eq_str(&f, "Bot") || eq_str(&f, "Bottom") {
                    CopperSide::Bottom
                } else if eq_str(&f, "Inr") || eq_str(&f, "Inner") {
                    CopperSide::Inner
                } else if layer_num == 1 {
                    CopperSide::Top
                } else {
                    CopperSide::Inner
                }
            },
            None => if layer_num == 1 {
                CopperSide::Top
            } else {
                CopperSide::Inner
            },
        };
        FileFunction::Copper { layer_num, side }
    } else if eq_str(&kind, "Legend") {
        FileFunction::Legend { side: field_side(&body, 1) }
    } else if eq_str(&kind, "Soldermask") {
        FileFunction::SolderMask { side: field_side(&body, 1) }
    } else if eq_str(&kind, "Paste") {
        FileFunction::Paste { side: field_side(&body, 1) }
    } else if eq_str(&kind, "Profile") {
        FileFunction::Profile
    } else {
        FileFunction::Other(string_from_chars(&kind))
    }
}

// ───────────────────────────── step and repeat ─────────────────────────────

/// Whether `char::is_alphabetic` holds of a character (the Unicode
/// `Alphabetic` property).
pub uninterp spec fn alphabetic(c: char) -> bool;

/// Calls `char::is_alphabetic`. The result is named [`alphabetic`]; for ASCII
/// characters the Unicode property holds exactly of the letters `A`–`Z` and
/// `a`–`z`. Beyond ASCII the property table is not written out.
#[verifier::external_body]
fn is_alphabetic(c: char) -> (res: bool)
    ensures
        res == alphabetic(c),
        (c as u32) < 128 ==> (res <==> ('A' <= c <= 'Z' || 'a' <= c <= 'z')),
{
    c.is_alphabetic()
}

/// Index of the first alphabetic character of `s` at or after `from`, or
/// the length of `s`.
pub open spec fn next_alphabetic(s: Seq<char>, from: int) -> int {
    if exists|i: int| from <= i < s.len() && alphabetic(s[i]) {
        choose|i: int| from <= i < s.len() && alphabetic(s[i]) && forall|j: int| from <= j < i ==> !alphabetic(#[trigger] s[j])
    } else {
        s.len() as int
    }
}

/// The unsigned number after the first `key` in a step-and-repeat parameter
/// string, up to the next letter.
pub open spec fn sr_uint_spec(s: Seq<char>, key: char) -> Option<u32> {
    match first_index(s, seq![key]) {
        Some(p) => {
            let after = s.skip(p + 1);
            match parse_unsigned(after.take(next_alphabetic(after, 0)), u32::MAX as int) {
                Some(v) => Some(v as u32),
                None => None,
            }
        },
        None => None,
    }
}

/// Index of the first alphabetic character of `s` at or after `from`.
fn find_alphabetic(s: &[char], from: usize) -> (res: usize)
    requires
        from <= s.len(),
    ensures
        res == next_alphabetic(s@, from as int),
        from <= res <= s.len(),
{
    let mut i = from;
    while i < s.len()
        invariant
            from <= i <= s.len(),
            forall|j: int| from <= j < i ==> !alphabetic(#[trigger] s@[j]),
        decreases s.len() - i,
    {
        if is_alphabetic(s[i]) {
            proof {
                let w = choose|w: int| from <= w < s@.len() && alphabetic(s@[w]) && forall|j: int| from <= j < w ==> !alphabetic(#[trigger] s@[j]);
                if w < i {
                    assert(!alphabetic(s@[w]));
                } else if w > i {
                    assert(!alphabetic(s@[i as int]));
                }
            }
            return i;
        }
        i += 1;
    }
    i
}

/// Extracts the unsigned integer after a key letter in a step-and-repeat
/// parameter string (`SRX3Y2I5.0J10.0`).
pub fn parse_sr_uint(s: &str, key: char) -> (res: Option<u32>)
    ensures
        res == sr_uint_spec(s@, key),
{
    let cs = chars_of(s);
    let needle = vec![key];
    assert(needle@ == seq![key]);
    let pos = match crate::text::find_chars(&cs, &needle) {
        Some(p) => p,
        None => return None,
    };
    assert(crate::text::occurs_at(cs@, needle@, pos as int));
    assert(pos + 1 <= cs.len());
    let after = slice_chars(&cs, pos + 1, cs.len());
    assert(after@ == cs@.skip(pos + 1));
    let end = find_alphabetic(&after, 0);
    let digits = slice_chars(&after, 0, end);
    assert(digits@ == after@.take(end as int));
    match parse_unsigned_exec(&digits, 0xffff_ffff) {
        Some(v) => Some(v as u32),
        None => None,
    }
}

// ───────────────────────────── commands ─────────────────────────────

/// Aperture shape template from an %AD command. Sizes are the decimal text of
/// the parameters, each one that `str::parse` reads as a 64-bit float.
#[derive(Debug, Clone, PartialEq)]
pub enum ApertureTemplate {
    Circle { diameter: String },
    Rectangle { x_size: String, y_size: String },
    Obround { x_size: String, y_size: String },
    /// The vertex count is the second parameter's text, as written; the
    /// rotation is the third parameter when there is one (else 0).
    Polygon { outer_diameter: String, num_vertices: String, rotation: Option<String> },
    /// Reference to a user-defined aperture macro.
    Macro { name: String, params: Vec<String> },
}

/// A fully parsed Gerber command.
#[derive(Debug, Clone, PartialEq)]
pub enum GerberCommand {
    /// %FS - Format specification
    FormatSpec(CoordinateFormat),
    /// %MO - Unit mode
    Units(Units),
    /// %AD - Aperture definition
    ApertureDefine { code: u32, template: ApertureTemplate },
    /// Dnn (n >= 10) - Select aperture
    SelectAperture(u32),
    /// D01 - Interpolate (draw)
    Interpolate { x: Option<i64>, y: Option<i64>, i: Option<i64>, j: Option<i64> },
    /// D02 - Move
    Move { x: Option<i64>, y: Option<i64> },
    /// D03 - Flash
    Flash { x: Option<i64>, y: Option<i64> },
    /// G01 - Linear interpolation mode
    LinearMode,
    /// G02 - Clockwise circular interpolation
    ClockwiseArcMode,
    /// G03 - Counter-clockwise circular interpolation
    CounterClockwiseArcMode,
    /// G36 - Begin region
    RegionBegin,
    /// G37 - End region
    RegionEnd,
    /// G74 - Single quadrant arc mode
    SingleQuadrant,
    /// G75 - Multi quadrant arc mode
    MultiQuadrant,
    /// %LP - Layer polarity
    Polarity(Polarity),
    /// %TF.FileFunction - Gerber X2 file function attribute
    FileFunction(FileFunction),
    /// %AM - Aperture macro definition
    MacroDefine { name: String, body: Vec<String> },
    /// %SR - Step-and-repeat block. With one repeat each way it closes (or
    /// resets) an open block. The steps are decimal text when given in a
    /// form that reads as a float (else 0).
    StepRepeat { x_repeat: u32, y_repeat: u32, x_step: Option<String>, y_step: Option<String> },
    /// %MI - Image mirroring: `a` flips X, `b` flips Y.
    ImageMirror { a: bool, b: bool },
    /// %SF - Image scaling: decimal text of each factor when given in a form
    /// that reads as a float (else 1).
    ImageScale { a: Option<String>, b: Option<String> },
    /// M02 - End of file
    EndOfFile,
}

/// The mathematical content of an [`ApertureTemplate`].
pub enum TemplateView {
    Circle { diameter: Seq<char> },
    Rectangle { x_size: Seq<char>, y_size: Seq<char> },
    Obround { x_size: Seq<char>, y_size: Seq<char> },
    Polygon { outer_diameter: Seq<char>, num_vertices: Seq<char>, rotation: Option<Seq<char>> },
    Macro { name: Seq<char>, params: Seq<Seq<char>> },
}

/// The mathematical content of a [`GerberCommand`].
pub enum CommandView {
    FormatSpec(CoordinateFormat),
    Units(Units),
    ApertureDefine { code: u32, template: TemplateView },
    SelectAperture(u32),
    Interpolate { x: Option<i64>, y: Option<i64>, i: Option<i64>, j: Option<i64> },
    Move { x: Option<i64>, y: Option<i64> },
    Flash { x: Option<i64>, y: Option<i64> },
    LinearMode,
    ClockwiseArcMode,
    CounterClockwiseArcMode,
    RegionBegin,
    RegionEnd,
    SingleQuadrant,
    MultiQuadrant,
    Polarity(Polarity),
    FileFunction(FileFunctionView),
    MacroDefine { name: Seq<char>, body: Seq<Seq<char>> },
    StepRepeat { x_repeat: u32, y_repeat: u32, x_step: Option<Seq<char>>, y_step: Option<Seq<char>> },
    ImageMirror { a: bool, b: bool },
    ImageScale { a: Option<Seq<char>>, b: Option<Seq<char>> },
    EndOfFile,
}

/// The characters of each string.
pub open spec fn strings_view(v: Seq<String>) -> Seq<Seq<char>> {
    Seq::new(v.len(), |i: int| v[i]@)
}

/// The characters of an optional string.
pub open spec fn opt_string_view(o: Option<String>) -> Option<Seq<char>> {
    match o {
        Some(s) => Some(s@),
        None => None,
    }
}

impl View for ApertureTemplate {
    type V = TemplateView;

    open spec fn view(&self) -> TemplateView {
        match self {
            ApertureTemplate::Circle { diameter } => TemplateView::Circle { diameter: diameter@ },
            ApertureTemplate::Rectangle { x_size, y_size } => TemplateView::Rectangle { x_size: x_size@, y_size: y_size@ },
            ApertureTemplate::Obround { x_size, y_size } => TemplateView::Obround { x_size: x_size@, y_size: y_size@ },
            ApertureTemplate::Polygon { outer_diameter, num_vertices, rotation } => TemplateView::Polygon {
                outer_diameter: outer_diameter@,
                num_vertices: num_vertices@,
                rotation: opt_string_view(*rotation),
            },
            ApertureTemplate::Macro { name, params } => TemplateView::Macro { name: name@, params: strings_view(params@) },
        }
    }
}

impl View for GerberCommand {
    type V = CommandView;

    open spec fn view(&self) -> CommandView {
        match self {
            GerberCommand::FormatSpec(f) => CommandView::FormatSpec(*f),
            GerberCommand::Units(u) => CommandView::Units(*u),
            GerberCommand::ApertureDefine { code, template } => CommandView::ApertureDefine { code: *code, template: template@ },
            GerberCommand::SelectAperture(c) => CommandView::SelectAperture(*c),
            GerberCommand::Interpolate { x, y, i, j } => CommandView::Interpolate { x: *x, y: *y, i: *i, j: *j },
            GerberCommand::Move { x, y } => CommandView::Move { x: *x, y: *y },
            GerberCommand::Flash { x, y } => CommandView::Flash { x: *x, y: *y },
            GerberCommand::LinearMode => CommandView::LinearMode,
            GerberCommand::ClockwiseArcMode => CommandView::ClockwiseArcMode,
            GerberCommand::CounterClockwiseArcMode => CommandView::CounterClockwiseArcMode,
            GerberCommand::RegionBegin => CommandView::RegionBegin,
            GerberCommand::RegionEnd => CommandView::RegionEnd,
            GerberCommand::SingleQuadrant => CommandView::SingleQuadrant,
            GerberCommand::MultiQuadrant => CommandView::MultiQuadrant,
            GerberCommand::Polarity(p) => CommandView::Polarity(*p),
            GerberCommand::FileFunction(f) => CommandView::FileFunction(f@),
            GerberCommand::MacroDefine { name, body } => CommandView::MacroDefine { name: name@, body: strings_view(body@) },
            GerberCommand::StepRepeat { x_repeat, y_repeat, x_step, y_step } => CommandView::StepRepeat {
                x_repeat: *x_repeat,
                y_repeat: *y_repeat,
                x_step: opt_string_view(*x_step),
                y_step: opt_string_view(*y_step),
            },
            GerberCommand::ImageMirror { a, b } => CommandView::ImageMirror { a: *a, b: *b },
            GerberCommand::ImageScale { a, b } => CommandView::ImageScale { a: opt_string_view(*a), b: opt_string_view(*b) },
            GerberCommand::EndOfFile => CommandView::EndOfFile,
        }
    }
}

/// The view of each command.
pub open spec fn commands_view(v: Seq<GerberCommand>) -> Seq<CommandView> {
    Seq::new(v.len(), |i: int| v[i]@)
}

/// What a parse step comes to: a value, an error message, or a panic of the
/// string slicing that the format rules out (the `%FS` digits).
pub enum Parsed<T> {
    Done(T),
    Failed(Seq<char>),
    Panics,
}

// ───────────────────────────── command specifications ─────────────────────────────

/// The index of the first character at or after `from` that is no ASCII
/// digit, or the length of `s`.
pub open spec fn digits_end(s: Seq<char>, from: int) -> int
    decreases s.len() - from,
{
    if 0 <= from < s.len() && is_digit(s[from]) {
        digits_end(s, from + 1)
    } else {
        from
    }
}

pub proof fn lemma_digits_end(s: Seq<char>, from: int)
    requires
        0 <= from <= s.len(),
    ensures
        from <= digits_end(s, from) <= s.len(),
        forall|k: int| from <= k < digits_end(s, from) ==> is_digit(#[trigger] s[k]),
        digits_end(s, from) < s.len() ==> !is_digit(s[digits_end(s, from)]),
    decreases s.len() - from,
{
    if from < s.len() && is_digit(s[from]) {
        lemma_digits_end(s, from + 1);
    }
}

/// What `str::parse` gives for `i64`: an optional sign, then one or more
/// digits, and a value in range.
pub open spec fn parse_i64_spec(s: Seq<char>) -> Option<int> {
    if s.len() > 0 && s[0] == '-' {
        let body = s.drop_first();
        if body.len() > 0 && all_digits(body) && digits_value(body) <= 0x8000_0000_0000_0000 {
            Some(-digits_value(body))
        } else {
            None
        }
    } else {
        match parse_unsigned(s, 0x7fff_ffff_ffff_ffff) {
            Some(v) => Some(v as int),
            None => None,
        }
    }
}

/// The coordinate letter a character names (`X`, `Y`, `I`, `J`, either case).
pub open spec fn coord_key(c: char) -> Option<char> {
    if c == 'X' || c == 'x' {
        Some('X')
    } else if c == 'Y' || c == 'y' {
        Some('Y')
    } else if c == 'I' || c == 'i' {
        Some('I')
    } else if c == 'J' || c == 'j' {
        Some('J')
    } else {
        None
    }
}

/// The coordinates and D code a word sets.
#[derive(Debug, Clone, Copy)]
pub struct WordFields {
    pub x: Option<i64>,
    pub y: Option<i64>,
    pub i: Option<i64>,
    pub j: Option<i64>,
    pub d: Option<u32>,
}

/// Why a word's fields could not be read.
pub enum ScanError {
    BadCoord,
    BadDCode,
}

/// The fields with the coordinate `key` set to `v`.
pub open spec fn set_coord(f: WordFields, key: char, v: i64) -> WordFields {
    if key == 'X' {
        WordFields { x: Some(v), ..f }
    } else if key == 'Y' {
        WordFields { y: Some(v), ..f }
    } else if key == 'I' {
        WordFields { i: Some(v), ..f }
    } else {
        WordFields { j: Some(v), ..f }
    }
}

/// Reads the fields of a word from character `pos` on: a coordinate letter
/// takes an optional sign and the digits after it (an `i64`), `D` takes the
/// digits after it (a `u32`); other characters are skipped; a later field
/// overrides an earlier one.
pub open spec fn scan_word(s: Seq<char>, pos: int, f: WordFields) -> Result<WordFields, ScanError>
    decreases s.len() - pos,
{
    if pos < 0 || pos >= s.len() {
        Ok(f)
    } else if coord_key(s[pos]) is Some {
        let start = pos + 1;
        let after_sign = if start < s.len() && (s[start] == '+' || s[start] == '-') { start + 1 } else { start };
        let end = digits_end(s, after_sign);
        proof {
            lemma_digits_end(s, after_sign);
        }
        match parse_i64_spec(s.subrange(start, end)) {
            None => Err(ScanError::BadCoord),
            Some(v) => scan_word(s, end, set_coord(f, coord_key(s[pos])->0, v as i64)),
        }
    } else if s[pos] == 'D' || s[pos] == 'd' {
        let end = digits_end(s, pos + 1);
        proof {
            lemma_digits_end(s, pos + 1);
        }
        match parse_unsigned(s.subrange(pos + 1, end), 0xffff_ffff) {
            None => Err(ScanError::BadDCode),
            Some(v) => scan_word(s, end, WordFields { d: Some(v as u32), ..f }),
        }
    } else {
        scan_word(s, pos + 1, f)
    }
}

/// No fields set.
pub open spec fn no_fields() -> WordFields {
    WordFields { x: None, y: None, i: None, j: None, d: None }
}

/// The command a word's fields make: D01 interpolates, D02 moves, D03
/// flashes, D10 and up select an aperture; without one of these D codes,
/// coordinates interpolate and a word with no X or Y makes nothing.
pub open spec fn word_command(f: WordFields) -> Seq<CommandView> {
    match f.d {
        Some(1) => seq![CommandView::Interpolate { x: f.x, y: f.y, i: f.i, j: f.j }],
        Some(2) => seq![CommandView::Move { x: f.x, y: f.y }],
        Some(3) => seq![CommandView::Flash { x: f.x, y: f.y }],
        Some(c) if c >= 10 => seq![CommandView::SelectAperture(c)],
        _ => if f.x is Some || f.y is Some {
            seq![CommandView::Interpolate { x: f.x, y: f.y, i: f.i, j: f.j }]
        } else {
            seq![]
        },
    }
}

/// The command of a G code (`G` and its digits), if it is one of those kept.
pub open spec fn g_code_spec(s: Seq<char>) -> Option<CommandView> {
    let v = parse_unsigned(s.drop_first(), 0xffff_ffff);
    if v == Some(1nat) {
        Some(CommandView::LinearMode)
    } else if v == Some(2nat) {
        Some(CommandView::ClockwiseArcMode)
    } else if v == Some(3nat) {
        Some(CommandView::CounterClockwiseArcMode)
    } else if v == Some(36nat) {
        Some(CommandView::RegionBegin)
    } else if v == Some(37nat) {
        Some(CommandView::RegionEnd)
    } else if v == Some(74nat) {
        Some(CommandView::SingleQuadrant)
    } else if v == Some(75nat) {
        Some(CommandView::MultiQuadrant)
    } else {
        None
    }
}

/// The commands of a word: a leading G code, then either an M code (M02
/// ends the file) or coordinates and a D code.
pub open spec fn word_spec(w: Seq<char>) -> Result<Seq<CommandView>, Seq<char>> {
    let is_g = w.len() > 0 && (w[0] == 'G' || w[0] == 'g');
    let ge = if is_g { digits_end(w, 1) } else { 0 };
    let gcmds: Seq<CommandView> = if is_g {
        match g_code_spec(w.take(ge)) {
            Some(c) => seq![c],
            None => seq![],
        }
    } else {
        seq![]
    };
    let rem = w.skip(ge);
    if is_g && rem.len() == 0 {
        Ok(gcmds)
    } else if rem.len() > 0 && (rem[0] == 'M' || rem[0] == 'm') {
        if parse_unsigned(rem.drop_first(), 0xffff_ffff) == Some(2nat) {
            Ok(gcmds.push(CommandView::EndOfFile))
        } else {
            Ok(gcmds)
        }
    } else {
        match scan_word(rem, 0, no_fields()) {
            Err(ScanError::BadCoord) => Err("bad coord in: "@ + w),
            Err(ScanError::BadDCode) => Err("bad D-code in: "@ + w),
            Ok(f) => Ok(gcmds + word_command(f)),
        }
    }
}

/// `s` without the leading characters that are in `set`
/// (`str::trim_start_matches`).
pub open spec fn trim_start_set(s: Seq<char>, set: Seq<char>) -> Seq<char>
    decreases s.len(),
{
    if s.len() > 0 && set.contains(s[0]) {
        trim_start_set(s.drop_first(), set)
    } else {
        s
    }
}

/// Whether a `%FS` digit group is shorter than two bytes of UTF-8.
pub open spec fn short_group(p: Seq<char>) -> bool {
    !(p.len() >= 2 || (p.len() == 1 && (p[0] as u32) >= 128))
}

/// A character of one UTF-8 byte.
pub open spec fn is_ascii(c: char) -> bool {
    (c as u32) < 128
}

/// The `%FS` format specification: after `FS` and any leading `L`, `T`, `A`,
/// `I`, an `X` group and a `Y` group, each integer digits and one decimal
/// digit (`u8` values). The groups are cut by byte offsets, which panics when
/// `Y` precedes `X` or a group ends in a character of several bytes.
#[verifier::opaque]
pub open spec fn fs_spec(content: Seq<char>) -> Parsed<CoordinateFormat> {
    let s = trim_start_set(content.skip(2), seq!['L', 'T', 'A', 'I']);
    match first_index(s, seq!['X']) {
        None => Parsed::Failed("FS: missing X"@),
        Some(xp) => match first_index(s, seq!['Y']) {
            None => Parsed::Failed("FS: missing Y"@),
            Some(yp) => if yp < xp + 1 {
                Parsed::Panics
            } else {
                let xg = s.subrange(xp + 1, yp);
                let yg = s.skip(yp + 1);
                if short_group(xg) || short_group(yg) {
                    Parsed::Failed("FS: invalid format digits: X="@ + xg + " Y="@ + yg)
                } else {
                    match fs_group(xg, 'X') {
                        Parsed::Panics => Parsed::Panics,
                        Parsed::Failed(m) => Parsed::Failed(m),
                        Parsed::Done((xi, xd)) => match fs_group(yg, 'Y') {
                            Parsed::Panics => Parsed::Panics,
                            Parsed::Failed(m) => Parsed::Failed(m),
                            Parsed::Done((yi, yd)) => Parsed::Done(
                                CoordinateFormat { x_integer: xi, x_decimal: xd, y_integer: yi, y_decimal: yd },
                            ),
                        },
                    }
                }
            },
        },
    }
}

/// One `%FS` digit group of at least two bytes: integer digits, then one
/// decimal digit, each a `u8`. Cutting off the last character by its byte
/// offset panics when it is not ASCII.
pub open spec fn fs_group(g: Seq<char>, axis: char) -> Parsed<(u8, u8)> {
    if !is_ascii(g.last()) {
        Parsed::Panics
    } else {
        match parse_unsigned(g.drop_last(), 255) {
            None => Parsed::Failed("FS: bad "@ + seq![axis] + " integer: "@ + g),
            Some(i) => match parse_unsigned(seq![g.last()], 255) {
                None => Parsed::Failed("FS: bad "@ + seq![axis] + " decimal: "@ + g),
                Some(d) => Parsed::Done((i as u8, d as u8)),
            },
        }
    }
}

/// An ASCII letter.
pub open spec fn is_ascii_alpha(c: char) -> bool {
    ('A' <= c <= 'Z') || ('a' <= c <= 'z')
}

/// The index of the first ASCII letter at or after `from`, or the length.
pub open spec fn ascii_alpha_from(s: Seq<char>, from: int) -> int
    decreases s.len() - from,
{
    if 0 <= from < s.len() && !is_ascii_alpha(s[from]) {
        ascii_alpha_from(s, from + 1)
    } else {
        from
    }
}

/// The pieces of `s` split at every `c` (`str::split`).
#[verifier::opaque]
pub open spec fn split_fields(s: Seq<char>, c: char) -> Seq<Seq<char>>
    decreases s.len(),
{
    match first_index(s, seq![c]) {
        Some(i) => if 0 <= i < s.len() {
            seq![s.take(i)] + split_fields(s.skip(i + 1), c)
        } else {
            seq![s]
        },
        None => seq![s],
    }
}

/// The index of the first piece at or after `from` that does not read as a
/// float, or the number of pieces.
pub open spec fn first_bad_param(ps: Seq<Seq<char>>, from: int) -> int
    decreases ps.len() - from,
{
    if 0 <= from < ps.len() && float_syntax(ps[from]) {
        first_bad_param(ps, from + 1)
    } else {
        from
    }
}

/// The type of an aperture template: what precedes the first comma.
pub open spec fn template_type(s: Seq<char>) -> Seq<char> {
    match first_index(s, seq![',']) {
        Some(c) => s.take(c),
        None => s,
    }
}

/// The parameters of an aperture template: what follows the first comma,
/// split at every `X` (none when nothing follows).
pub open spec fn template_pieces(s: Seq<char>) -> Seq<Seq<char>> {
    let ps = match first_index(s, seq![',']) {
        Some(c) => s.skip(c + 1),
        None => Seq::<char>::empty(),
    };
    if ps.len() == 0 { seq![] } else { split_fields(ps, 'X') }
}

/// An aperture template (`C,0.020`, `R,0.040X0.020`, `OC8,0.1`): the type
/// before the first comma, then parameters separated by `X`, each one a
/// float. `C`, `R`, `O` and `P` are the standard shapes; any other type
/// names a macro.
#[verifier::opaque]
pub open spec fn template_spec(s: Seq<char>) -> Result<TemplateView, Seq<char>> {
    let tc = template_type(s);
    let pieces = template_pieces(s);
    let bad = first_bad_param(pieces, 0);
    if 0 <= bad < pieces.len() {
        Err("AD: bad param: "@ + pieces[bad])
    } else if tc == "C"@ {
        if pieces.len() == 0 {
            Err("AD C: missing diameter"@)
        } else {
            Ok(TemplateView::Circle { diameter: pieces[0] })
        }
    } else if tc == "R"@ {
        if pieces.len() < 2 {
            Err("AD R: need x_size and y_size"@)
        } else {
            Ok(TemplateView::Rectangle { x_size: pieces[0], y_size: pieces[1] })
        }
    } else if tc == "O"@ {
        if pieces.len() < 2 {
            Err("AD O: need x_size and y_size"@)
        } else {
            Ok(TemplateView::Obround { x_size: pieces[0], y_size: pieces[1] })
        }
    } else if tc == "P"@ {
        if pieces.len() < 2 {
            Err("AD P: need diameter and num_vertices"@)
        } else {
            Ok(TemplateView::Polygon {
                outer_diameter: pieces[0],
                num_vertices: pieces[1],
                rotation: if pieces.len() > 2 { Some(pieces[2]) } else { None },
            })
        }
    } else {
        Ok(TemplateView::Macro { name: tc, params: pieces })
    }
}

/// An aperture definition (`ADD10C,0.020`): `D`, the code (a `u32`) up to
/// the first ASCII letter, then the template.
#[verifier::opaque]
pub open spec fn ad_spec(content: Seq<char>) -> Result<CommandView, Seq<char>> {
    let s = content.skip(2);
    if !(s.len() > 0 && s[0] == 'D') {
        Err("AD: expected D, got: "@ + s)
    } else {
        let s = s.skip(1);
        let tp = ascii_alpha_from(s, 0);
        if tp >= s.len() {
            Err("AD: no template type in: "@ + s)
        } else {
            match parse_unsigned(s.take(tp), 0xffff_ffff) {
                None => Err("AD: bad aperture code: "@ + s),
                Some(code) => match template_spec(s.skip(tp)) {
                    Ok(t) => Ok(CommandView::ApertureDefine { code: code as u32, template: t }),
                    Err(m) => Err(m),
                },
            }
        }
    }
}

/// The text after the first `key` up to the next letter, when it reads as a
/// float.
#[verifier::opaque]
pub open spec fn decimal_after(s: Seq<char>, key: char) -> Option<Seq<char>> {
    match first_index(s, seq![key]) {
        Some(p) => {
            let after = s.skip(p + 1);
            let t = after.take(next_alphabetic(after, 0));
            if float_syntax(t) {
                Some(t)
            } else {
                None
            }
        },
        None => None,
    }
}

/// Whether the character after the first `key` is `1`.
#[verifier::opaque]
pub open spec fn flag_after(s: Seq<char>, key: char) -> bool {
    match first_index(s, seq![key]) {
        Some(p) => p + 1 < s.len() && s[p + 1] == '1',
        None => false,
    }
}

/// A step-and-repeat command (`SRX3Y2I5.0J10.0`); a bare `SR` closes a
/// block. Repeats default to 1.
#[verifier::opaque]
pub open spec fn sr_spec(content: Seq<char>) -> CommandView {
    let s = content.skip(2);
    if s.len() == 0 {
        CommandView::StepRepeat { x_repeat: 1, y_repeat: 1, x_step: None, y_step: None }
    } else {
        CommandView::StepRepeat {
            x_repeat: match sr_uint_spec(s, 'X') { Some(v) => v, None => 1 },
            y_repeat: match sr_uint_spec(s, 'Y') { Some(v) => v, None => 1 },
            x_step: decimal_after(s, 'I'),
            y_step: decimal_after(s, 'J'),
        }
    }
}

/// An extended command: the format, units, an aperture, the polarity, an X2
/// file function, step-and-repeat, mirroring or scaling; any other extended
/// command is skipped.
pub open spec fn extended_spec(c: Seq<char>) -> Parsed<Option<CommandView>> {
    if starts_with(c, "FS"@) {
        match fs_spec(c) {
            Parsed::Done(f) => Parsed::Done(Some(CommandView::FormatSpec(f))),
            Parsed::Failed(m) => Parsed::Failed(m),
            Parsed::Panics => Parsed::Panics,
        }
    } else if c == "MOMM"@ {
        Parsed::Done(Some(CommandView::Units(Units::Millimeters)))
    } else if c == "MOIN"@ {
        Parsed::Done(Some(CommandView::Units(Units::Inches)))
    } else if starts_with(c, "AD"@) {
        match ad_spec(c) {
            Ok(cmd) => Parsed::Done(Some(cmd)),
            Err(m) => Parsed::Failed(m),
        }
    } else if c == "LPD"@ {
        Parsed::Done(Some(CommandView::Polarity(Polarity::Dark)))
    } else if c == "LPC"@ {
        Parsed::Done(Some(CommandView::Polarity(Polarity::Clear)))
    } else if starts_with(c, "TF.FileFunction,"@) {
        Parsed::Done(Some(CommandView::FileFunction(file_function_spec(c))))
    } else if starts_with(c, "SR"@) {
        Parsed::Done(Some(sr_spec(c)))
    } else if starts_with(c, "MI"@) {
        let s = c.skip(2);
        Parsed::Done(Some(CommandView::ImageMirror { a: flag_after(s, 'A'), b: flag_after(s, 'B') }))
    } else if starts_with(c, "SF"@) {
        let s = c.skip(2);
        Parsed::Done(Some(CommandView::ImageScale { a: decimal_after(s, 'A'), b: decimal_after(s, 'B') }))
    } else {
        Parsed::Done(None)
    }
}

/// The commands so far, with the open macro (if any) closed.
pub open spec fn flush_macro(out: Seq<CommandView>, name: Option<Seq<char>>, body: Seq<Seq<char>>) -> Seq<CommandView> {
    match name {
        Some(n) => out.push(CommandView::MacroDefine { name: n, body }),
        None => out,
    }
}

/// A line of a macro body: a primitive (starting with an ASCII digit) or a
/// variable definition (starting with `$`).
pub open spec fn macro_body_line(t: Seq<char>) -> bool {
    t.len() > 0 && (is_digit(t[0]) || t[0] == '$')
}

/// The commands of tokens `k..`, given the commands before them and the
/// open macro: `AM` opens a macro (closing an open one), trimmed body lines
/// join the open macro, and any other token closes it and is parsed. The
/// first error ends the parse.
pub open spec fn commands_from(ts: Seq<TokenView>, k: int, out: Seq<CommandView>, name: Option<Seq<char>>, body: Seq<Seq<char>>) -> Parsed<Seq<CommandView>>
    decreases ts.len() - k,
{
    if k < 0 || k >= ts.len() {
        Parsed::Done(flush_macro(out, name, body))
    } else {
        match ts[k] {
            TokenView::Extended(c) => if starts_with(c, "AM"@) && c.len() > 2 {
                commands_from(ts, k + 1, flush_macro(out, name, body), Some(c.skip(2)), seq![])
            } else if name is Some && macro_body_line(trim(c)) {
                commands_from(ts, k + 1, out, name, body.push(trim(c)))
            } else {
                match extended_spec(c) {
                    Parsed::Panics => Parsed::Panics,
                    Parsed::Failed(m) => Parsed::Failed(m),
                    Parsed::Done(o) => {
                        let out2 = flush_macro(out, name, body);
                        commands_from(ts, k + 1, match o { Some(cmd) => out2.push(cmd), None => out2 }, None, seq![])
                    },
                }
            },
            TokenView::Word(w) => match word_spec(w) {
                Err(m) => Parsed::Failed(m),
                Ok(cs) => commands_from(ts, k + 1, flush_macro(out, name, body) + cs, None, seq![]),
            },
        }
    }
}

/// The commands of a token stream.
pub open spec fn commands_spec(ts: Seq<TokenView>) -> Parsed<Seq<CommandView>> {
    commands_from(ts, 0, seq![], None, seq![])
}

// ───────────────────────────── word commands ─────────────────────────────

/// A parse error with a message made of a prefix and some text.
fn error_with(prefix: &str, rest: &[char]) -> (res: ExtractError)
    ensures
        res matches ExtractError::ParseError(m) && m@ == prefix@ + rest@,
{
    let mut m = crate::text::to_string(prefix);
    crate::text::push_chars(&mut m, rest);
    ExtractError::ParseError(m)
}

/// Index of the first non-digit at or after `from`.
fn digits_end_exec(s: &[char], from: usize) -> (res: usize)
    requires
        from <= s.len(),
    ensures
        res == digits_end(s@, from as int),
        from <= res <= s.len(),
{
    let mut i = from;
    while i < s.len() && '0' <= s[i] && s[i] <= '9'
        invariant
            from <= i <= s.len(),
            digits_end(s@, from as int) == digits_end(s@, i as int),
        decreases s.len() - i,
    {
        i += 1;
    }
    i
}

/// Parses a signed 64-bit integer as `str::parse` does.
fn parse_i64_exec(s: &[char]) -> (res: Option<i64>)
    ensures
        match parse_i64_spec(s@) {
            Some(v) => res == Some(v as i64) && i64::MIN <= v <= i64::MAX,
            None => res is None,
        },
{
    if s.len() > 0 && s[0] == '-' {
        let body = slice_chars(s, 1, s.len());
        assert(body@ == s@.drop_first());
        if body.len() > 0 && body[0] == '+' {
            assert(!is_digit(body@[0]));
            return None;
        }
        match parse_unsigned_exec(&body, 0x8000_0000_0000_0000) {
            Some(v) => {
                if v == 0x8000_0000_0000_0000 {
                    Some(i64::MIN)
                } else {
                    Some(-(v as i64))
                }
            },
            None => None,
        }
    } else {
        match parse_unsigned_exec(s, 0x7fff_ffff_ffff_ffff) {
            Some(v) => Some(v as i64),
            None => None,
        }
    }
}

/// The coordinate letter a character names.
fn coord_key_exec(c: char) -> (res: Option<char>)
    ensures
        res == coord_key(c),
{
    if c == 'X' || c == 'x' {
        Some('X')
    } else if c == 'Y' || c == 'y' {
        Some('Y')
    } else if c == 'I' || c == 'i' {
        Some('I')
    } else if c == 'J' || c == 'j' {
        Some('J')
    } else {
        None
    }
}

/// Reads the coordinates and D code of a word.
fn scan_word_exec(s: &[char]) -> (res: Result<WordFields, ScanError>)
    ensures
        res == scan_word(s@, 0, no_fields()),
{
    let mut f = WordFields { x: None, y: None, i: None, j: None, d: None };
    let mut pos: usize = 0;
    while pos < s.len()
        invariant
            pos <= s.len(),
            scan_word(s@, 0, no_fields()) == scan_word(s@, pos as int, f),
        decreases s.len() - pos,
    {
        let c = s[pos];
        match coord_key_exec(c) {
            Some(key) => {
                let start = pos + 1;
                let after_sign = if start < s.len() && (s[start] == '+' || s[start] == '-') {
                    start + 1
                } else {
                    start
                };
                let end = digits_end_exec(s, after_sign);
                let t = slice_chars(s, start, end);
                match parse_i64_exec(&t) {
                    None => return Err(ScanError::BadCoord),
                    Some(v) => {
                        f = if key == 'X' {
                            WordFields { x: Some(v), ..f }
                        } else if key == 'Y' {
                            WordFields { y: Some(v), ..f }
                        } else if key == 'I' {
                            WordFields { i: Some(v), ..f }
                        } else {
                            WordFields { j: Some(v), ..f }
                        };
                        pos = end;
                    },
                }
            },
            None => {
                if c == 'D' || c == 'd' {
                    let end = digits_end_exec(s, pos + 1);
                    let t = slice_chars(s, pos + 1, end);
                    match parse_unsigned_exec(&t, 0xffff_ffff) {
                        None => return Err(ScanError::BadDCode),
                        Some(v) => {
                            f = WordFields { d: Some(v as u32), ..f };
                            pos = end;
                        },
                    }
                } else {
                    pos += 1;
                }
            },
        }
    }
    Ok(f)
}

/// The command of a G code (`G` and its digits), if it is one of those kept.
fn parse_g_code(s: &[char]) -> (res: Option<GerberCommand>)
    requires
        s.len() >= 1,
    ensures
        match g_code_spec(s@) {
            Some(c) => res matches Some(r) && r@ == c,
            None => res is None,
        },
{
    let digits = slice_chars(s, 1, s.len());
    assert(digits@ == s@.drop_first());
    match parse_unsigned_exec(&digits, 0xffff_ffff) {
        Some(1) => Some(GerberCommand::LinearMode),
        Some(2) => Some(GerberCommand::ClockwiseArcMode),
        Some(3) => Some(GerberCommand::CounterClockwiseArcMode),
        Some(36) => Some(GerberCommand::RegionBegin),
        Some(37) => Some(GerberCommand::RegionEnd),
        Some(74) => Some(GerberCommand::SingleQuadrant),
        Some(75) => Some(GerberCommand::MultiQuadrant),
        _ => None,
    }
}

/// The command a word's fields make.
fn word_command_exec(f: WordFields) -> (res: Vec<GerberCommand>)
    ensures
        commands_view(res@) == word_command(f),
{
    let mut out: Vec<GerberCommand> = Vec::new();
    match f.d {
        Some(1) => out.push(GerberCommand::Interpolate { x: f.x, y: f.y, i: f.i, j: f.j }),
        Some(2) => out.push(GerberCommand::Move { x: f.x, y: f.y }),
        Some(3) => out.push(GerberCommand::Flash { x: f.x, y: f.y }),
        Some(c) if c >= 10 => out.push(GerberCommand::SelectAperture(c)),
        _ => if f.x.is_some() || f.y.is_some() {
            out.push(GerberCommand::Interpolate { x: f.x, y: f.y, i: f.i, j: f.j });
        },
    }
    assert(commands_view(out@) =~= word_command(f));
    out
}

/// Parses a word command (`D10`, `X100Y200D01`, `G01`, `M02`), which may
/// begin with a G code (`G01X100Y200D01`).
fn parse_word(word: &str) -> (res: Result<Vec<GerberCommand>, ExtractError>)
    ensures
        match word_spec(word@) {
            Ok(cs) => res matches Ok(v) && commands_view(v@) == cs,
            Err(m) => res matches Err(ExtractError::ParseError(e)) && e@ == m,
        },
{
    let w = chars_of(word);
    let mut commands: Vec<GerberCommand> = Vec::new();
    let is_g = w.len() > 0 && (w[0] == 'G' || w[0] == 'g');
    let mut ge: usize = 0;
    if is_g {
        ge = digits_end_exec(&w, 1);
        let g = slice_chars(&w, 0, ge);
        assert(g@ == w@.take(ge as int));
        match parse_g_code(&g) {
            Some(cmd) => commands.push(cmd),
            None => {},
        }
    }
    let ghost gcmds = commands_view(commands@);
    assert(gcmds =~= (if is_g {
        match g_code_spec(w@.take(ge as int)) {
            Some(c) => seq![c],
            None => seq![],
        }
    } else {
        seq![]
    }));
    let rem = slice_chars(&w, ge, w.len());
    assert(rem@ == w@.skip(ge as int));
    if is_g && rem.len() == 0 {
        return Ok(commands);
    }
    if rem.len() > 0 && (rem[0] == 'M' || rem[0] == 'm') {
        let digits = slice_chars(&rem, 1, rem.len());
        assert(digits@ == rem@.drop_first());
        match parse_unsigned_exec(&digits, 0xffff_ffff) {
            Some(2) => {
                commands.push(GerberCommand::EndOfFile);
                assert(commands_view(commands@) =~= gcmds.push(CommandView::EndOfFile));
            },
            _ => {},
        }
        return Ok(commands);
    }
    match scan_word_exec(&rem) {
        Err(ScanError::BadCoord) => Err(error_with("bad coord in: ", &w)),
        Err(ScanError::BadDCode) => Err(error_with("bad D-code in: ", &w)),
        Ok(f) => {
            let mut more = word_command_exec(f);
            commands.append(&mut more);
            Ok(commands)
        },
    }
}

// ───────────────────────────── format specification ─────────────────────────────

/// A parse error with a fixed message.
fn error_text(msg: &str) -> (res: ExtractError)
    ensures
        res matches ExtractError::ParseError(m) && m@ == msg@,
{
    ExtractError::ParseError(crate::text::to_string(msg))
}

proof fn lemma_fs_flags(c: char)
    ensures
        seq!['L', 'T', 'A', 'I'].contains(c) <==> (c == 'L' || c == 'T' || c == 'A' || c == 'I'),
{
    let set = seq!['L', 'T', 'A', 'I'];
    if c == 'L' {
        assert(set[0] == c);
    } else if c == 'T' {
        assert(set[1] == c);
    } else if c == 'A' {
        assert(set[2] == c);
    } else if c == 'I' {
        assert(set[3] == c);
    } else if set.contains(c) {
        let i = choose|i: int| 0 <= i < set.len() && set[i] == c;
        assert(i == 0 || i == 1 || i == 2 || i == 3);
    }
}

/// Whether a `%FS` digit group is shorter than two bytes of UTF-8.
fn short_group_exec(p: &[char]) -> (res: bool)
    ensures
        res == short_group(p@),
{
    !(p.len() >= 2 || (p.len() == 1 && (p[0] as u32) >= 128))
}

/// The end of the leading `%FS` flags (`L`, `T`, `A`, `I`).
fn fs_flags_end(s0: &[char]) -> (res: usize)
    ensures
        res <= s0.len(),
        s0@.skip(res as int) == trim_start_set(s0@, seq!['L', 'T', 'A', 'I']),
{
    let ghost set = seq!['L', 'T', 'A', 'I'];
    let mut i: usize = 0;
    assert(s0@.skip(0) =~= s0@);
    while i < s0.len() && (s0[i] == 'L' || s0[i] == 'T' || s0[i] == 'A' || s0[i] == 'I')
        invariant
            i <= s0.len(),
            set == seq!['L', 'T', 'A', 'I'],
            trim_start_set(s0@, set) == trim_start_set(s0@.skip(i as int), set),
        decreases s0.len() - i,
    {
        proof {
            let rest = s0@.skip(i as int);
            lemma_fs_flags(s0@[i as int]);
            assert(rest[0] == s0@[i as int]);
            assert(rest.drop_first() =~= s0@.skip(i + 1));
            assert(trim_start_set(rest, set) == trim_start_set(rest.drop_first(), set));
        }
        i += 1;
    }
    proof {
        let rest = s0@.skip(i as int);
        if i < s0.len() {
            lemma_fs_flags(s0@[i as int]);
            assert(rest[0] == s0@[i as int]);
        }
        assert(trim_start_set(rest, set) == rest);
    }
    i
}

/// The message `FS: bad <axis> <what>: <group>`.
fn group_error(axis: char, what: &str, g: &[char]) -> (res: ExtractError)
    ensures
        res matches ExtractError::ParseError(m) && m@ == "FS: bad "@ + seq![axis] + what@ + g@,
{
    let mut m = crate::text::to_string("FS: bad ");
    crate::text::push_char(&mut m, axis);
    crate::text::push_str(&mut m, what);
    crate::text::push_chars(&mut m, g);
    ExtractError::ParseError(m)
}

/// One digit group of `%FS`, or `None` where cutting it would panic.
fn fs_group_exec(g: &[char], axis: char) -> (res: Option<Result<(u8, u8), ExtractError>>)
    requires
        g.len() >= 1,
    ensures
        match fs_group(g@, axis) {
            Parsed::Done(v) => res == Some(Ok::<(u8, u8), ExtractError>(v)),
            Parsed::Failed(m) => res matches Some(Err(ExtractError::ParseError(e))) && e@ == m,
            Parsed::Panics => res is None,
        },
{
    if (g[g.len() - 1] as u32) >= 128 {
        return None;
    }
    let it = slice_chars(g, 0, g.len() - 1);
    let dt = slice_chars(g, g.len() - 1, g.len());
    assert(it@ == g@.drop_last());
    assert(dt@ =~= seq![g@.last()]);
    let i = match parse_unsigned_exec(&it, 255) {
        Some(v) => v,
        None => return Some(Err(group_error(axis, " integer: ", g))),
    };
    let d = match parse_unsigned_exec(&dt, 255) {
        Some(v) => v,
        None => return Some(Err(group_error(axis, " decimal: ", g))),
    };
    Some(Ok((i as u8, d as u8)))
}

/// The `%FS` coordinate format, or `None` where cutting the digit groups by
/// byte offsets would panic.
fn format_spec_exec(c: &[char]) -> (res: Option<Result<CoordinateFormat, ExtractError>>)
    requires
        c.len() >= 2,
    ensures
        match fs_spec(c@) {
            Parsed::Done(f) => res == Some(Ok::<CoordinateFormat, ExtractError>(f)),
            Parsed::Failed(m) => res matches Some(Err(ExtractError::ParseError(e))) && e@ == m,
            Parsed::Panics => res is None,
        },
{
    reveal(fs_spec);
    let s0 = slice_chars(c, 2, c.len());
    assert(s0@ == c@.skip(2));
    let start = fs_flags_end(&s0);
    let s = slice_chars(&s0, start, s0.len());
    assert(s@ == trim_start_set(c@.skip(2), seq!['L', 'T', 'A', 'I']));
    let xs = vec!['X'];
    let ys = vec!['Y'];
    assert(xs@ == seq!['X'] && ys@ == seq!['Y']);
    let xp = match crate::text::find_chars(&s, &xs) {
        Some(p) => p,
        None => return Some(Err(error_text("FS: missing X"))),
    };
    let yp = match crate::text::find_chars(&s, &ys) {
        Some(p) => p,
        None => return Some(Err(error_text("FS: missing Y"))),
    };
    if yp < xp + 1 {
        return None;
    }
    assert(crate::text::occurs_at(s@, ys@, yp as int));
    let xg = slice_chars(&s, xp + 1, yp);
    let yg = slice_chars(&s, yp + 1, s.len());
    assert(yg@ == s@.skip(yp + 1));
    if short_group_exec(&xg) || short_group_exec(&yg) {
        let mut m = crate::text::to_string("FS: invalid format digits: X=");
        crate::text::push_chars(&mut m, &xg);
        crate::text::push_str(&mut m, " Y=");
        crate::text::push_chars(&mut m, &yg);
        return Some(Err(ExtractError::ParseError(m)));
    }
    let (xi, xd) = match fs_group_exec(&xg, 'X') {
        None => return None,
        Some(Err(e)) => return Some(Err(e)),
        Some(Ok(v)) => v,
    };
    let (yi, yd) = match fs_group_exec(&yg, 'Y') {
        None => return None,
        Some(Err(e)) => return Some(Err(e)),
        Some(Ok(v)) => v,
    };
    Some(Ok(CoordinateFormat { x_integer: xi, x_decimal: xd, y_integer: yi, y_decimal: yd }))
}

// ───────────────────────────── apertures ─────────────────────────────

/// The characters of each vector.
pub open spec fn chars_views(v: Seq<Vec<char>>) -> Seq<Seq<char>> {
    Seq::new(v.len(), |i: int| v[i]@)
}

/// Index of the first ASCII letter at or after `from`.
fn ascii_alpha_from_exec(s: &[char], from: usize) -> (res: usize)
    requires
        from <= s.len(),
    ensures
        res == ascii_alpha_from(s@, from as int),
        from <= res <= s.len(),
{
    let mut i = from;
    while i < s.len() && !(('A' <= s[i] && s[i] <= 'Z') || ('a' <= s[i] && s[i] <= 'z'))
        invariant
            from <= i <= s.len(),
            ascii_alpha_from(s@, from as int) == ascii_alpha_from(s@, i as int),
        decreases s.len() - i,
    {
        i += 1;
    }
    i
}

/// The pieces of `s` split at every `c`.
pub(crate) fn split_fields_exec(s: &[char], c: char) -> (res: Vec<Vec<char>>)
    ensures
        chars_views(res@) == split_fields(s@, c),
{
    let mut out: Vec<Vec<char>> = Vec::new();
    let mut rest = slice_chars(s, 0, s.len());
    assert(rest@ =~= s@);
    loop
        invariant
            split_fields(s@, c) == chars_views(out@) + split_fields(rest@, c),
        decreases rest.len(),
    {
        match crate::text::split_once_char(&rest, c) {
            Some((a, b)) => {
                proof {
                    let i = a@.len() as int;
                    lemma_split_step(rest@, c, i);
                    assert(a@ =~= rest@.take(i));
                    assert(b@ =~= rest@.skip(i + 1));
                    assert(chars_views(out@.push(a)) =~= chars_views(out@).push(a@));
                    assert(chars_views(out@).push(a@) + split_fields(b@, c) =~= chars_views(out@) + (seq![a@] + split_fields(b@, c)));
                }
                out.push(a);
                rest = b;
            },
            None => {
                proof {
                    lemma_split_none(rest@, c);
                    assert(chars_views(out@.push(rest)) =~= chars_views(out@).push(rest@));
                }
                out.push(rest);
                return out;
            },
        }
    }
}

proof fn lemma_split_step(r: Seq<char>, c: char, i: int)
    requires
        first_index(r, seq![c]) == Some(i),
        0 <= i < r.len(),
    ensures
        split_fields(r, c) == seq![r.take(i)] + split_fields(r.skip(i + 1), c),
{
    reveal(split_fields);
}

/// A split has at least one piece.
pub proof fn lemma_split_nonempty(s: Seq<char>, c: char)
    ensures
        split_fields(s, c).len() >= 1,
    decreases s.len(),
{
    reveal(split_fields);
    match first_index(s, seq![c]) {
        Some(i) => if 0 <= i < s.len() {
            lemma_split_nonempty(s.skip(i + 1), c);
        },
        None => {},
    }
}

proof fn lemma_split_none(r: Seq<char>, c: char)
    requires
        first_index(r, seq![c]) is None,
    ensures
        split_fields(r, c) == seq![r],
{
    reveal(split_fields);
}

/// Index of the first piece that does not read as a float.
fn first_bad_param_exec(ps: &Vec<Vec<char>>) -> (res: usize)
    ensures
        res == first_bad_param(chars_views(ps@), 0),
        res <= ps.len(),
{
    let ghost v = chars_views(ps@);
    let mut i: usize = 0;
    while i < ps.len() && is_float_text(&ps[i])
        invariant
            i <= ps.len(),
            v == chars_views(ps@),
            first_bad_param(v, 0) == first_bad_param(v, i as int),
        decreases ps.len() - i,
    {
        assert(v[i as int] == ps@[i as int]@);
        i += 1;
    }
    proof {
        if i < ps.len() {
            assert(v[i as int] == ps@[i as int]@);
        }
    }
    i
}

/// The pieces as strings.
fn strings_from(ps: &Vec<Vec<char>>) -> (res: Vec<String>)
    ensures
        strings_view(res@) == chars_views(ps@),
{
    let mut out: Vec<String> = Vec::new();
    let mut i: usize = 0;
    while i < ps.len()
        invariant
            i <= ps.len(),
            strings_view(out@) == chars_views(ps@).take(i as int),
        decreases ps.len() - i,
    {
        let t = crate::text::string_from_chars(&ps[i]);
        let ghost before = out@;
        out.push(t);
        proof {
            assert(chars_views(ps@)[i as int] == ps@[i as int]@);
            assert(chars_views(ps@).take(i + 1) =~= chars_views(ps@).take(i as int).push(ps@[i as int]@));
            assert(strings_view(out@) =~= strings_view(before).push(ps@[i as int]@));
        }
        i += 1;
    }
    assert(chars_views(ps@).take(ps.len() as int) =~= chars_views(ps@));
    out
}

/// Whether a template result matches its specification.
pub open spec fn template_matches(res: Result<ApertureTemplate, ExtractError>, spec: Result<TemplateView, Seq<char>>) -> bool {
    match spec {
        Ok(t) => res matches Ok(r) && r@ == t,
        Err(m) => res matches Err(ExtractError::ParseError(e)) && e@ == m,
    }
}

/// The type and the parameter pieces of an aperture template.
fn template_parts(s: &[char]) -> (res: (Vec<char>, Vec<Vec<char>>))
    ensures
        res.0@ == template_type(s@),
        chars_views(res.1@) == template_pieces(s@),
{
    let (tc, ps) = match crate::text::split_once_char(s, ',') {
        Some((a, b)) => {
            proof {
                let c = a@.len() as int;
                assert(a@ =~= s@.take(c));
                assert(b@ =~= s@.skip(c + 1));
            }
            (a, b)
        },
        None => (slice_chars(s, 0, s.len()), Vec::new()),
    };
    let ghost psv = match first_index(s@, seq![',']) { Some(c) => s@.skip(c + 1), None => Seq::<char>::empty() };
    assert(ps@ =~= psv);
    let pieces: Vec<Vec<char>> = if ps.len() == 0 { Vec::new() } else { split_fields_exec(&ps, 'X') };
    assert(chars_views(pieces@) =~= template_pieces(s@));
    (tc, pieces)
}

/// Parses an aperture template (`C,0.020`, `R,0.040X0.020`, `OC8,0.1`).
#[verifier::rlimit(30)]
fn parse_aperture_template(s: &[char]) -> (res: Result<ApertureTemplate, ExtractError>)
    ensures
        template_matches(res, template_spec(s@)),
{
    reveal(template_spec);
    let (tc, pieces) = template_parts(s);
    let ghost pv = chars_views(pieces@);
    let bad = first_bad_param_exec(&pieces);
    if bad < pieces.len() {
        assert(pv[bad as int] == pieces@[bad as int]@);
        return Err(error_with("AD: bad param: ", &pieces[bad]));
    }
    if pieces.len() > 0 {
        assert(pv[0] == pieces@[0]@);
    }
    if pieces.len() > 1 {
        assert(pv[1] == pieces@[1]@);
    }
    if pieces.len() > 2 {
        assert(pv[2] == pieces@[2]@);
    }
    if eq_str(&tc, "C") {
        if pieces.len() == 0 {
            Err(error_text("AD C: missing diameter"))
        } else {
            Ok(ApertureTemplate::Circle { diameter: string_from_chars(&pieces[0]) })
        }
    } else if eq_str(&tc, "R") {
        if pieces.len() < 2 {
            Err(error_text("AD R: need x_size and y_size"))
        } else {
            Ok(ApertureTemplate::Rectangle { x_size: string_from_chars(&pieces[0]), y_size: string_from_chars(&pieces[1]) })
        }
    } else if eq_str(&tc, "O") {
        if pieces.len() < 2 {
            Err(error_text("AD O: need x_size and y_size"))
        } else {
            Ok(ApertureTemplate::Obround { x_size: string_from_chars(&pieces[0]), y_size: string_from_chars(&pieces[1]) })
        }
    } else if eq_str(&tc, "P") {
        if pieces.len() < 2 {
            Err(error_text("AD P: need diameter and num_vertices"))
        } else {
            let rotation = if pieces.len() > 2 { Some(string_from_chars(&pieces[2])) } else { None };
            Ok(ApertureTemplate::Polygon {
                outer_diameter: string_from_chars(&pieces[0]),
                num_vertices: string_from_chars(&pieces[1]),
                rotation,
            })
        }
    } else {
        let params = strings_from(&pieces);
        Ok(ApertureTemplate::Macro { name: string_from_chars(&tc), params })
    }
}

/// Whether a command result matches its specification.
pub open spec fn command_matches(res: Result<GerberCommand, ExtractError>, spec: Result<CommandView, Seq<char>>) -> bool {
    match spec {
        Ok(c) => res matches Ok(r) && r@ == c,
        Err(m) => res matches Err(ExtractError::ParseError(e)) && e@ == m,
    }
}

/// Parses an aperture definition (`ADD10C,0.020`, `ADD11R,0.040X0.020`).
fn parse_aperture_define(c: &[char]) -> (res: Result<GerberCommand, ExtractError>)
    requires
        c.len() >= 2,
    ensures
        command_matches(res, ad_spec(c@)),
{
    reveal(ad_spec);
    let s0 = slice_chars(c, 2, c.len());
    assert(s0@ == c@.skip(2));
    if !(s0.len() > 0 && s0[0] == 'D') {
        return Err(error_with("AD: expected D, got: ", &s0));
    }
    let s = slice_chars(&s0, 1, s0.len());
    assert(s@ == s0@.skip(1));
    let tp = ascii_alpha_from_exec(&s, 0);
    if tp >= s.len() {
        return Err(error_with("AD: no template type in: ", &s));
    }
    let code_text = slice_chars(&s, 0, tp);
    assert(code_text@ == s@.take(tp as int));
    match parse_unsigned_exec(&code_text, 0xffff_ffff) {
        None => Err(error_with("AD: bad aperture code: ", &s)),
        Some(code) => {
            let rest = slice_chars(&s, tp, s.len());
            assert(rest@ == s@.skip(tp as int));
            match parse_aperture_template(&rest) {
                Ok(t) => Ok(GerberCommand::ApertureDefine { code: code as u32, template: t }),
                Err(e) => Err(e),
            }
        },
    }
}

// ───────────────────────────── other extended commands ─────────────────────────────

/// The text after the first `key` up to the next letter, when it reads as a
/// float (the step of `%SR`, the factors of `%SF`).
fn parse_decimal_after(s: &[char], key: char) -> (res: Option<String>)
    ensures
        opt_string_view(res) == decimal_after(s@, key),
{
    reveal(decimal_after);
    let needle = vec![key];
    assert(needle@ == seq![key]);
    let pos = match crate::text::find_chars(s, &needle) {
        Some(p) => p,
        None => return None,
    };
    assert(crate::text::occurs_at(s@, needle@, pos as int));
    assert(s@.subrange(pos as int, pos + 1) == seq![key]);
    assert(pos < s.len());
    let after = slice_chars(s, pos + 1, s.len());
    assert(after@ == s@.skip(pos + 1));
    let end = find_alphabetic(&after, 0);
    let t = slice_chars(&after, 0, end);
    assert(t@ == after@.take(end as int));
    if is_float_text(&t) {
        Some(string_from_chars(&t))
    } else {
        None
    }
}

/// Whether the character after the first `key` is `1` (`%MI` flags).
fn flag_after_exec(s: &[char], key: char) -> (res: bool)
    ensures
        res == flag_after(s@, key),
{
    reveal(flag_after);
    let needle = vec![key];
    assert(needle@ == seq![key]);
    match crate::text::find_chars(s, &needle) {
        Some(p) => {
            assert(crate::text::occurs_at(s@, needle@, p as int));
            assert(s@.subrange(p as int, p + 1) == seq![key]);
            assert(p < s.len());
            p + 1 < s.len() && s[p + 1] == '1'
        },
        None => false,
    }
}

/// Parses `%SR` (`SRX3Y2I5.0J10.0`, or a bare `SR`).
fn parse_step_repeat(c: &[char]) -> (res: GerberCommand)
    requires
        c.len() >= 2,
    ensures
        res@ == sr_spec(c@),
{
    reveal(sr_spec);
    let s = slice_chars(c, 2, c.len());
    assert(s@ == c@.skip(2));
    if s.len() == 0 {
        return GerberCommand::StepRepeat { x_repeat: 1, y_repeat: 1, x_step: None, y_step: None };
    }
    let text = string_from_chars(&s);
    let x_repeat = match parse_sr_uint(text.as_str(), 'X') {
        Some(v) => v,
        None => 1,
    };
    let y_repeat = match parse_sr_uint(text.as_str(), 'Y') {
        Some(v) => v,
        None => 1,
    };
    let x_step = parse_decimal_after(&s, 'I');
    let y_step = parse_decimal_after(&s, 'J');
    GerberCommand::StepRepeat { x_repeat, y_repeat, x_step, y_step }
}

/// The view of an optional command.
pub open spec fn opt_command_view(o: Option<GerberCommand>) -> Option<CommandView> {
    match o {
        Some(c) => Some(c@),
        None => None,
    }
}

/// Parses an extended command (the text between `%` delimiters), or `None`
/// for a `%FS` command whose fields cannot be cut at character boundaries
/// (see [`fs_spec`]).
#[verifier::rlimit(30)]
fn parse_extended(content: &str) -> (res: Option<Result<Option<GerberCommand>, ExtractError>>)
    ensures
        match extended_spec(content@) {
            Parsed::Panics => res is None,
            Parsed::Failed(m) => res matches Some(Err(ExtractError::ParseError(e))) && e@ == m,
            Parsed::Done(o) => res matches Some(Ok(r)) && opt_command_view(r) == o,
        },
{
    proof {
        reveal_strlit("FS");
        reveal_strlit("AD");
        reveal_strlit("SR");
        reveal_strlit("MI");
        reveal_strlit("SF");
    }
    let c = chars_of(content);
    if starts_with_str(&c, "FS") {
        return match format_spec_exec(&c) {
            None => None,
            Some(Err(e)) => Some(Err(e)),
            Some(Ok(f)) => Some(Ok(Some(GerberCommand::FormatSpec(f)))),
        };
    }
    if eq_str(&c, "MOMM") {
        return Some(Ok(Some(GerberCommand::Units(Units::Millimeters))));
    }
    if eq_str(&c, "MOIN") {
        return Some(Ok(Some(GerberCommand::Units(Units::Inches))));
    }
    if starts_with_str(&c, "AD") {
        return match parse_aperture_define(&c) {
            Ok(cmd) => Some(Ok(Some(cmd))),
            Err(e) => Some(Err(e)),
        };
    }
    if eq_str(&c, "LPD") {
        return Some(Ok(Some(GerberCommand::Polarity(Polarity::Dark))));
    }
    if eq_str(&c, "LPC") {
        return Some(Ok(Some(GerberCommand::Polarity(Polarity::Clear))));
    }
    if starts_with_str(&c, "TF.FileFunction,") {
        return Some(Ok(Some(GerberCommand::FileFunction(parse_file_function(content)))));
    }
    if starts_with_str(&c, "SR") {
        return Some(Ok(Some(parse_step_repeat(&c))));
    }
    if starts_with_str(&c, "MI") {
        let s = slice_chars(&c, 2, c.len());
        assert(s@ == c@.skip(2));
        let a = flag_after_exec(&s, 'A');
        let b = flag_after_exec(&s, 'B');
        return Some(Ok(Some(GerberCommand::ImageMirror { a, b })));
    }
    if starts_with_str(&c, "SF") {
        let s = slice_chars(&c, 2, c.len());
        assert(s@ == c@.skip(2));
        let a = parse_decimal_after(&s, 'A');
        let b = parse_decimal_after(&s, 'B');
        return Some(Ok(Some(GerberCommand::ImageScale { a, b })));
    }
    Some(Ok(None))
}

// ───────────────────────────── token stream ─────────────────────────────

/// The commands with the open macro, if any, closed into a definition.
fn close_macro(commands: Vec<GerberCommand>, name: Option<String>, body: Vec<String>) -> (res: Vec<GerberCommand>)
    ensures
        commands_view(res@) == flush_macro(commands_view(commands@), opt_string_view(name), strings_view(body@)),
{
    let mut commands = commands;
    let ghost before = commands@;
    match name {
        Some(n) => {
            let ghost nv = n@;
            let ghost bv = strings_view(body@);
            commands.push(GerberCommand::MacroDefine { name: n, body });
            assert(commands_view(commands@) =~= commands_view(before).push(CommandView::MacroDefine { name: nv, body: bv }));
        },
        None => {},
    }
    commands
}

/// Parses a token stream into commands, or `None` when a `%FS` command's
/// fields cannot be cut at character boundaries (see [`fs_spec`]). An `%AM`
/// token opens a macro whose
/// body lines follow; any other token closes it.
pub fn try_parse_commands(tokens: &[GerberToken]) -> (res: Option<Result<Vec<GerberCommand>, ExtractError>>)
    ensures
        match commands_spec(token_views(tokens@)) {
            Parsed::Done(cs) => res matches Some(Ok(v)) && commands_view(v@) == cs,
            Parsed::Failed(m) => res matches Some(Err(ExtractError::ParseError(e))) && e@ == m,
            Parsed::Panics => res is None,
        },
{
    let ghost ts = token_views(tokens@);
    let mut commands: Vec<GerberCommand> = Vec::new();
    let mut macro_name: Option<String> = None;
    let mut macro_body: Vec<String> = Vec::new();
    let mut k: usize = 0;
    assert(commands_view(commands@) =~= seq![]);
    assert(strings_view(macro_body@) =~= seq![]);
    while k < tokens.len()
        invariant
            k <= tokens.len(),
            ts == token_views(tokens@),
            commands_spec(ts) == commands_from(ts, k as int, commands_view(commands@), opt_string_view(macro_name), strings_view(macro_body@)),
        decreases tokens.len() - k,
    {
        assert(ts[k as int] == tokens@[k as int]@);
        match &tokens[k] {
            GerberToken::Extended(content) => {
                let c = chars_of(content.as_str());
                if starts_with_str(&c, "AM") && c.len() > 2 {
                    commands = close_macro(commands, macro_name, macro_body);
                    let n = slice_chars(&c, 2, c.len());
                    assert(n@ == c@.skip(2));
                    macro_name = Some(string_from_chars(&n));
                    macro_body = Vec::new();
                    assert(strings_view(macro_body@) =~= seq![]);
                } else {
                    let mut handled = false;
                    if macro_name.is_some() {
                        let t = crate::text::trim_chars(&c);
                        if t.len() > 0 && (('0' <= t[0] && t[0] <= '9') || t[0] == '$') {
                            let ghost before = macro_body@;
                            macro_body.push(string_from_chars(&t));
                            assert(strings_view(macro_body@) =~= strings_view(before).push(t@));
                            handled = true;
                        }
                    }
                    if !handled {
                        match parse_extended(content.as_str()) {
                            None => return None,
                            Some(Err(e)) => return Some(Err(e)),
                            Some(Ok(o)) => {
                                commands = close_macro(commands, macro_name, macro_body);
                                macro_name = None;
                                macro_body = Vec::new();
                                assert(strings_view(macro_body@) =~= seq![]);
                                match o {
                                    Some(cmd) => {
                                        let ghost before = commands@;
                                        let ghost cv = cmd@;
                                        commands.push(cmd);
                                        assert(commands_view(commands@) =~= commands_view(before).push(cv));
                                    },
                                    None => {},
                                }
                            },
                        }
                    }
                }
            },
            GerberToken::Word(w) => {
                match parse_word(w.as_str()) {
                    Err(e) => return Some(Err(e)),
                    Ok(cs) => {
                        let mut cs = cs;
                        commands = close_macro(commands, macro_name, macro_body);
                        macro_name = None;
                        macro_body = Vec::new();
                        assert(strings_view(macro_body@) =~= seq![]);
                        let ghost before = commands@;
                        let ghost more = cs@;
                        commands.append(&mut cs);
                        assert(commands_view(commands@) =~= commands_view(before) + commands_view(more));
                    },
                }
            },
        }
        k += 1;
    }
    Some(Ok(close_macro(commands, macro_name, macro_body)))
}

/// Parses a token stream into Gerber commands. The first malformed command
/// ends the parse with its error. Streams whose `%FS` digit groups cannot be
/// cut at byte offsets (a `Y` before the `X`, a group ending in a character
/// of several bytes) are left out: [`try_parse_commands`] reports them.
pub fn parse_commands(tokens: &[GerberToken]) -> (res: Result<Vec<GerberCommand>, ExtractError>)
    requires
        !(commands_spec(token_views(tokens@)) is Panics),
    ensures
        match commands_spec(token_views(tokens@)) {
            Parsed::Done(cs) => res matches Ok(v) && commands_view(v@) == cs,
            Parsed::Failed(m) => res matches Err(ExtractError::ParseError(e)) && e@ == m,
            Parsed::Panics => false,
        },
{
    match try_parse_commands(tokens) {
        Some(r) => r,
        None => Err(error_text("FS: digit groups cannot be cut")),
    }
}

} // verus!
