//! Excellon drill files: the header (units, zero suppression, coordinate
//! format, tool table) and the body (tool selections and drill hits).
//!
//! Numbers are kept as written: a coordinate with a decimal point as its
//! text, one without as its digits and the number of implied decimals, and a
//! tool diameter as its text with the units in force when it was defined.
//! Converting them to millimeters is floating-point work left to the caller.
use vstd::prelude::*;

use std::collections::HashMap;

use crate::text::{
    after_first, all_digits, before_first, chars_of, contains, contains_str, digits_value,
    eq_str, first_index, is_digit, parse_unsigned, parse_unsigned_exec, slice_chars,
    split_once_char, starts_with, starts_with_str, string_from_chars, to_string, to_uppercase,
    trim, trim_chars, uppercase,
};

verus! {

// ───────────────────────────── number syntax ─────────────────────────────

/// ASCII lower case of a character.
pub open spec fn ascii_lower(c: char) -> char {
    if 'A' <= c <= 'Z' {
        ((c as u8) + 32) as char
    } else {
        c
    }
}

/// Digits, a point, and digits, with at least one digit in all.
pub open spec fn mantissa_syntax(m: Seq<char>) -> bool {
    match first_index(m, seq!['.']) {
        None => m.len() > 0 && all_digits(m),
        Some(d) => {
            let a = m.subrange(0, d);
            let b = m.subrange(d + 1, m.len() as int);
            all_digits(a) && all_digits(b) && (a.len() > 0 || b.len() > 0)
        },
    }
}

/// An optional sign followed by one or more digits.
pub open spec fn exponent_syntax(e: Seq<char>) -> bool {
    let digits = if e.len() > 0 && (e[0] == '+' || e[0] == '-') { e.drop_first() } else { e };
    digits.len() > 0 && all_digits(digits)
}

/// The grammar that `str::parse` documents for 64-bit floating-point numbers,
/// applied to the lower-cased text: an optional sign, then `inf`,
/// `infinity`, `nan`, or a number with an optional exponent (`Number ::=
/// (Digit+ | Digit+ '.' Digit* | Digit* '.' Digit+) Exp?`, `Exp ::= 'e' Sign?
/// Digit+`).
#[verifier::opaque]
pub open spec fn float_syntax(s: Seq<char>) -> bool {
    let low = Seq::new(s.len(), |i: int| ascii_lower(s[i]));
    let body = if low.len() > 0 && (low[0] == '+' || low[0] == '-') { low.drop_first() } else { low };
    if body == "inf"@ || body == "infinity"@ || body == "nan"@ {
        true
    } else {
        match first_index(body, seq!['e']) {
            None => mantissa_syntax(body),
            Some(k) => mantissa_syntax(body.subrange(0, k)) && exponent_syntax(body.subrange(k + 1, body.len() as int)),
        }
    }
}

fn all_digits_exec(s: &[char]) -> (res: bool)
    ensures
        res == all_digits(s@),
{
    let mut i: usize = 0;
    while i < s.len()
        invariant
            i <= s.len(),
            forall|j: int| 0 <= j < i ==> is_digit(#[trigger] s@[j]),
        decreases s.len() - i,
    {
        if !('0' <= s[i] && s[i] <= '9') {
            return false;
        }
        i += 1;
    }
    true
}

fn mantissa_syntax_exec(m: &[char]) -> (res: bool)
    ensures
        res == mantissa_syntax(m@),
{
    match split_once_char(m, '.') {
        None => m.len() > 0 && all_digits_exec(m),
        Some((a, b)) => {
            proof {
                let d = first_index(m@, seq!['.'])->0;
                assert(a@ == m@.subrange(0, d));
                assert(b@ == m@.subrange(d + 1, m@.len() as int));
            }
            all_digits_exec(&a) && all_digits_exec(&b) && (a.len() > 0 || b.len() > 0)
        },
    }
}

fn exponent_syntax_exec(e: &[char]) -> (res: bool)
    ensures
        res == exponent_syntax(e@),
{
    let digits = if e.len() > 0 && (e[0] == '+' || e[0] == '-') {
        slice_chars(e, 1, e.len())
    } else {
        slice_chars(e, 0, e.len())
    };
    assert(digits@ == (if e@.len() > 0 && (e@[0] == '+' || e@[0] == '-') { e@.drop_first() } else { e@ }));
    digits.len() > 0 && all_digits_exec(&digits)
}

/// Whether text is a number that `str::parse` reads as a 64-bit float (see
/// [`float_syntax`]).
pub fn is_float_text(s: &[char]) -> (res: bool)
    ensures
        res == float_syntax(s@),
{
    proof {
        reveal(float_syntax);
    }
    let mut low: Vec<char> = Vec::new();
    let mut i: usize = 0;
    while i < s.len()
        invariant
            i <= s.len(),
            low@ == Seq::new(s@.len(), |k: int| ascii_lower(s@[k])).take(i as int),
        decreases s.len() - i,
    {
        let c = s[i];
        let l = if 'A' <= c && c <= 'Z' { ((c as u8) + 32) as char } else { c };
        low.push(l);
        i += 1;
        assert(low@ == Seq::new(s@.len(), |k: int| ascii_lower(s@[k])).take(i as int));
    }
    assert(low@ == Seq::new(s@.len(), |k: int| ascii_lower(s@[k])));
    let body = if low.len() > 0 && (low[0] == '+' || low[0] == '-') {
        slice_chars(&low, 1, low.len())
    } else {
        slice_chars(&low, 0, low.len())
    };
    assert(body@ == (if low@.len() > 0 && (low@[0] == '+' || low@[0] == '-') { low@.drop_first() } else { low@ }));
    if eq_str(&body, "inf") || eq_str(&body, "infinity") || eq_str(&body, "nan") {
        return true;
    }
    match split_once_char(&body, 'e') {
        None => mantissa_syntax_exec(&body),
        Some((m, e)) => {
            proof {
                let k = first_index(body@, seq!['e'])->0;
                assert(m@ == body@.subrange(0, k));
                assert(e@ == body@.subrange(k + 1, body@.len() as int));
            }
            mantissa_syntax_exec(&m) && exponent_syntax_exec(&e)
        },
    }
}

// ───────────────────────────── values ─────────────────────────────

/// Units used in the drill file.
#[derive(Debug, Clone, Copy, PartialEq, Eq, Structural)]
pub enum ExcellonUnits {
    Metric,
    Inches,
}

/// Zero suppression mode.
#[derive(Debug, Clone, Copy, PartialEq, Eq, Structural)]
pub enum ZeroSuppression {
    Trailing,
    Leading,
}

/// A coordinate as written in the file.
#[derive(Debug, Clone, PartialEq)]
pub enum CoordValue {
    /// Text with a decimal point, in the syntax of `str::parse` for floats.
    Decimal(String),
    /// Digits without a point: the integer they form, the number of implied
    /// decimals, and whether a minus sign came first.
    Scaled { raw: i64, decimals: u8, negative: bool },
}

/// A tool definition: the diameter as written and whether it is in inches.
#[derive(Debug, Clone, PartialEq)]
pub struct ToolDef {
    pub diameter: String,
    pub inches: bool,
}

/// One drill hit: the coordinates, whether they are in inches, and the tool.
#[derive(Debug, Clone, PartialEq)]
pub struct DrillHit {
    pub x: CoordValue,
    pub y: CoordValue,
    pub inches: bool,
    pub tool: ToolDef,
}

/// The mathematical content of a coordinate.
pub enum CoordView {
    Decimal(Seq<char>),
    Scaled { raw: i64, decimals: u8, negative: bool },
}

/// The mathematical content of a hit: coordinates, units, tool diameter
/// text and tool units.
pub struct HitView {
    pub x: CoordView,
    pub y: CoordView,
    pub inches: bool,
    pub diameter: Seq<char>,
    pub diameter_inches: bool,
}

impl View for CoordValue {
    type V = CoordView;

    open spec fn view(&self) -> CoordView {
        match self {
            CoordValue::Decimal(s) => CoordView::Decimal(s@),
            CoordValue::Scaled { raw, decimals, negative } => CoordView::Scaled {
                raw: *raw,
                decimals: *decimals,
                negative: *negative,
            },
        }
    }
}

impl View for DrillHit {
    type V = HitView;

    open spec fn view(&self) -> HitView {
        HitView {
            x: self.x@,
            y: self.y@,
            inches: self.inches,
            diameter: self.tool.diameter@,
            diameter_inches: self.tool.inches,
        }
    }
}

/// The views of a sequence of hits.
pub open spec fn hits_view(v: Seq<DrillHit>) -> Seq<HitView> {
    Seq::new(v.len(), |i: int| v[i]@)
}

/// What the reader knows after each line.
pub struct ExcState {
    pub units: ExcellonUnits,
    pub zero_sup: ZeroSuppression,
    pub integer: u8,
    pub decimal: u8,
    pub tools: Map<u32, (Seq<char>, bool)>,
    pub current: Option<u32>,
    pub hits: Seq<HitView>,
    pub in_header: bool,
    pub saw_header: bool,
}

/// The state before the first line: metric, trailing zeros, format 3.3.
pub open spec fn initial_state() -> ExcState {
    ExcState {
        units: ExcellonUnits::Metric,
        zero_sup: ZeroSuppression::Trailing,
        integer: 3,
        decimal: 3,
        tools: Map::empty(),
        current: None,
        hits: Seq::empty(),
        in_header: false,
        saw_header: false,
    }
}

// ───────────────────────────── header ─────────────────────────────

/// Whether a field is a coordinate format such as `000.000`.
pub open spec fn is_format_field(f: Seq<char>) -> bool {
    contains(f, "."@) && forall|i: int| 0 <= i < f.len() ==> (#[trigger] f[i] == '0' || f[i] == '.')
}

/// The effect of one comma-separated option of a units line.
#[verifier::opaque]
pub open spec fn apply_option(st: ExcState, f: Seq<char>) -> ExcState {
    if f == "TZ"@ {
        ExcState { zero_sup: ZeroSuppression::Trailing, ..st }
    } else if f == "LZ"@ {
        ExcState { zero_sup: ZeroSuppression::Leading, ..st }
    } else if is_format_field(f) && first_index(f, seq!['.']) is Some {
        let d = first_index(f, seq!['.'])->0;
        let int_digits = (d % 256) as u8;
        let dec_digits = ((f.len() - d - 1) % 256) as u8;
        if int_digits > 0 && dec_digits > 0 {
            ExcState { integer: int_digits, decimal: dec_digits, ..st }
        } else {
            st
        }
    } else {
        st
    }
}

/// The options of a units line, field by field.
pub open spec fn apply_options(st: ExcState, rest: Seq<char>) -> ExcState
    decreases rest.len(),
{
    let st2 = apply_option(st, trim(before_first(rest, ',')));
    if first_index(rest, seq![',']) is Some && after_first(rest, ',').len() < rest.len() {
        apply_options(st2, after_first(rest, ','))
    } else {
        st2
    }
}

/// One upper-cased header line: units with options, or a tool definition
/// `T<n>C<diameter>` in the units then in force.
#[verifier::opaque]
pub open spec fn header_line(st: ExcState, upper: Seq<char>) -> ExcState {
    if starts_with(upper, "METRIC"@) || upper == "M71"@ {
        apply_options(ExcState { units: ExcellonUnits::Metric, ..st }, upper)
    } else if starts_with(upper, "INCH"@) || upper == "M72"@ {
        apply_options(ExcState { units: ExcellonUnits::Inches, ..st }, upper)
    } else if starts_with(upper, "T"@) {
        let rest = upper.drop_first();
        match first_index(rest, seq!['C']) {
            Some(c) => {
                let num = rest.subrange(0, c);
                let diam = rest.subrange(c + 1, rest.len() as int);
                if parse_unsigned(num, u32::MAX as int) is Some && float_syntax(diam) {
                    let n = parse_unsigned(num, u32::MAX as int)->0 as u32;
                    ExcState { tools: st.tools.insert(n, (diam, st.units == ExcellonUnits::Inches)), ..st }
                } else {
                    st
                }
            },
            None => st,
        }
    } else {
        st
    }
}

// ───────────────────────────── body ─────────────────────────────

/// Whether a character is an ASCII letter.
pub open spec fn is_ascii_letter(c: char) -> bool {
    ('A' <= c <= 'Z') || ('a' <= c <= 'z')
}

/// Index of the first ASCII letter at or after `from`, or the length.
pub open spec fn next_letter(s: Seq<char>, from: int) -> int
    decreases s.len() - from,
{
    if from >= s.len() {
        s.len() as int
    } else if is_ascii_letter(s[from]) {
        from
    } else {
        next_letter(s, from + 1)
    }
}

/// The next letter is at or after `from` and within the string.
pub proof fn lemma_next_letter_bounds(s: Seq<char>, from: int)
    requires
        0 <= from <= s.len(),
    ensures
        from <= next_letter(s, from) <= s.len(),
    decreases s.len() - from,
{
    if from < s.len() && !is_ascii_letter(s[from]) {
        lemma_next_letter_bounds(s, from + 1);
    }
}

/// The last `X` and `Y` fields of a coordinate line from index `i` on.
pub open spec fn coord_fields(s: Seq<char>, i: int, x: Option<Seq<char>>, y: Option<Seq<char>>) -> (Option<Seq<char>>, Option<Seq<char>>)
    decreases s.len() - i,
{
    if i < 0 || i >= s.len() {
        (x, y)
    } else if s[i] == 'X' {
        let end = next_letter(s, i + 1);
        proof {
            lemma_next_letter_bounds(s, i + 1);
        }
        coord_fields(s, end, Some(s.subrange(i + 1, end)), y)
    } else if s[i] == 'Y' {
        let end = next_letter(s, i + 1);
        proof {
            lemma_next_letter_bounds(s, i + 1);
        }
        coord_fields(s, end, x, Some(s.subrange(i + 1, end)))
    } else {
        coord_fields(s, i + 1, x, y)
    }
}

/// The digits of a string, in order.
pub open spec fn digits_of(s: Seq<char>) -> Seq<char>
    decreases s.len(),
{
    if s.len() == 0 {
        Seq::empty()
    } else if is_digit(s.last()) {
        digits_of(s.drop_last()).push(s.last())
    } else {
        digits_of(s.drop_last())
    }
}

/// A coordinate field read with `decimals` implied decimals: text with a
/// point when it is a valid number; otherwise its digits, which must exist
/// and fit an `i64`.
#[verifier::opaque]
pub open spec fn coord_value(s: Seq<char>, decimals: u8) -> Option<CoordView> {
    if s.len() == 0 {
        None
    } else if contains(s, "."@) {
        if float_syntax(s) {
            Some(CoordView::Decimal(s))
        } else {
            None
        }
    } else {
        let digits = digits_of(s);
        match parse_unsigned(digits, i64::MAX as int) {
            Some(v) => if digits.len() > 0 {
                Some(CoordView::Scaled { raw: v as i64, decimals, negative: starts_with(s, "-"@) })
            } else {
                None
            },
            None => None,
        }
    }
}

/// The leading digits of a string.
pub open spec fn leading_digits(s: Seq<char>) -> Seq<char>
    decreases s.len(),
{
    if s.len() > 0 && is_digit(s[0]) {
        seq![s[0]] + leading_digits(s.drop_first())
    } else {
        Seq::empty()
    }
}

/// One upper-cased body line: a tool selection `T<n>`, or a drill hit at
/// `X..Y..` with the selected tool; anything else is ignored.
#[verifier::opaque]
pub open spec fn body_line(st: ExcState, upper: Seq<char>) -> ExcState {
    if starts_with(upper, "T"@) && !contains(upper, "C"@) {
        match parse_unsigned(leading_digits(upper.drop_first()), u32::MAX as int) {
            Some(n) => ExcState { current: Some(n as u32), ..st },
            None => st,
        }
    } else if starts_with(upper, "X"@) || starts_with(upper, "Y"@) {
        match st.current {
            Some(t) => if st.tools.dom().contains(t) {
                let (fx, fy) = coord_fields(upper, 0, None, None);
                match (fx, fy) {
                    (Some(xs), Some(ys)) => match (coord_value(xs, st.decimal), coord_value(ys, st.decimal)) {
                        (Some(x), Some(y)) => ExcState {
                            hits: st.hits.push(
                                HitView {
                                    x,
                                    y,
                                    inches: st.units == ExcellonUnits::Inches,
                                    diameter: st.tools[t].0,
                                    diameter_inches: st.tools[t].1,
                                },
                            ),
                            ..st
                        },
                        _ => st,
                    },
                    _ => st,
                }
            } else {
                st
            },
            None => st,
        }
    } else {
        st
    }
}

// ───────────────────────────── lines ─────────────────────────────

/// One raw line: comments and blank lines are skipped, `M48` opens the
/// header, `%` and `M95` close it, `M30` and `M00` end the file (the second
/// result); other lines go to the header or the body.
#[verifier::opaque]
pub open spec fn line_step(st: ExcState, raw: Seq<char>) -> (ExcState, bool) {
    let line = trim(raw);
    if line.len() == 0 || starts_with(line, ";"@) {
        (st, false)
    } else if line == "M48"@ {
        (ExcState { in_header: true, saw_header: true, ..st }, false)
    } else if line == "%"@ || line == "M95"@ {
        (ExcState { in_header: false, ..st }, false)
    } else if line == "M30"@ || line == "M00"@ {
        (st, true)
    } else if st.in_header {
        (header_line(st, uppercase(line)), false)
    } else {
        (body_line(st, uppercase(line)), false)
    }
}

/// The state after the lines of `rest`.
pub open spec fn run_lines(st: ExcState, rest: Seq<char>) -> ExcState
    decreases rest.len(),
{
    let (st2, stop) = line_step(st, before_first(rest, '\n'));
    if stop {
        st2
    } else if first_index(rest, seq!['\n']) is Some && after_first(rest, '\n').len() < rest.len() {
        run_lines(st2, after_first(rest, '\n'))
    } else {
        st2
    }
}

/// The drill hits of an Excellon file, or `None` when the text does not
/// mention `M48`, or has neither a header, tools, nor hits.
pub open spec fn excellon_spec(content: Seq<char>) -> Option<Seq<HitView>> {
    if !contains(trim(content), "M48"@) {
        None
    } else {
        let st = run_lines(initial_state(), content);
        if !st.saw_header && st.tools.len() == 0 && st.hits.len() == 0 {
            None
        } else {
            Some(st.hits)
        }
    }
}

// ───────────────────────────── reading ─────────────────────────────

/// The reader's state while lines are read.
struct Reader {
    units: ExcellonUnits,
    zero_sup: ZeroSuppression,
    integer: u8,
    decimal: u8,
    tools: HashMap<u32, ToolDef>,
    current: Option<u32>,
    hits: Vec<DrillHit>,
    in_header: bool,
    saw_header: bool,
}

/// The diameter text and units of each tool.
pub open spec fn tools_view(m: Map<u32, ToolDef>) -> Map<u32, (Seq<char>, bool)> {
    Map::new(|k: u32| m.dom().contains(k), |k: u32| (m[k].diameter@, m[k].inches))
}

impl View for Reader {
    type V = ExcState;

    closed spec fn view(&self) -> ExcState {
        ExcState {
            units: self.units,
            zero_sup: self.zero_sup,
            integer: self.integer,
            decimal: self.decimal,
            tools: tools_view(self.tools@),
            current: self.current,
            hits: hits_view(self.hits@),
            in_header: self.in_header,
            saw_header: self.saw_header,
        }
    }
}

/// Whether every character is `0` or `.` and one is `.`.
fn is_format_field_exec(f: &[char]) -> (res: bool)
    ensures
        res == is_format_field(f@),
{
    let mut i: usize = 0;
    while i < f.len()
        invariant
            i <= f.len(),
            forall|j: int| 0 <= j < i ==> (#[trigger] f@[j] == '0' || f@[j] == '.'),
        decreases f.len() - i,
    {
        if !(f[i] == '0' || f[i] == '.') {
            return false;
        }
        i += 1;
    }
    contains_str(f, ".")
}

impl Reader {
    fn apply_option(&mut self, f: &[char])
        ensures
            final(self)@ == apply_option(old(self)@, f@),
    {
        proof {
            reveal(apply_option);
        }
        if eq_str(f, "TZ") {
            self.zero_sup = ZeroSuppression::Trailing;
        } else if eq_str(f, "LZ") {
            self.zero_sup = ZeroSuppression::Leading;
        } else if is_format_field_exec(f) {
            match split_once_char(f, '.') {
                Some((before, after)) => {
                    let int_digits = (before.len() % 256) as u8;
                    let dec_digits = (after.len() % 256) as u8;
                    proof {
                        let d = first_index(f@, seq!['.'])->0;
                        assert(before@.len() == d);
                        assert(after@.len() == f@.len() - d - 1);
                    }
                    if int_digits > 0 && dec_digits > 0 {
                        self.integer = int_digits;
                        self.decimal = dec_digits;
                    }
                },
                None => {},
            }
        }
    }

    fn apply_options(&mut self, line: &[char])
        ensures
            final(self)@ == apply_options(old(self)@, line@),
        decreases line.len(),
    {
        let (field, rest) = match split_once_char(line, ',') {
            Some((a, b)) => (a, Some(b)),
            None => (slice_chars(line, 0, line.len()), None),
        };
        assert(field@ == before_first(line@, ','));
        let f = trim_chars(&field);
        let ghost st0 = self@;
        self.apply_option(&f);
        let ghost st1 = self@;
        assert(st1 == apply_option(st0, trim(before_first(line@, ','))));
        match rest {
            Some(r) => {
                self.apply_options(&r);
                assert(apply_options(st0, line@) == apply_options(st1, r@));
            },
            None => {
                assert(apply_options(st0, line@) == st1);
            },
        }
    }

    fn header_line(&mut self, upper: &[char])
        ensures
            final(self)@ == header_line(old(self)@, upper@),
    {
        proof {
            reveal(header_line);
        }
        broadcast use vstd::std_specs::hash::group_hash_axioms;
        proof {
            reveal_strlit("T");
        }
        if starts_with_str(upper, "METRIC") || eq_str(upper, "M71") {
            self.units = ExcellonUnits::Metric;
            self.apply_options(upper);
        } else if starts_with_str(upper, "INCH") || eq_str(upper, "M72") {
            self.units = ExcellonUnits::Inches;
            self.apply_options(upper);
        } else if starts_with_str(upper, "T") {
            let rest = slice_chars(upper, 1, upper.len());
            assert(rest@ == upper@.drop_first());
            let needle = vec!['C'];
            assert(needle@ == seq!['C']);
            match crate::text::find_chars(&rest, &needle) {
                Some(c) => {
                    assert(crate::text::occurs_at(rest@, needle@, c as int));
                    let num = slice_chars(&rest, 0, c);
                    let diam = slice_chars(&rest, c + 1, rest.len());
                    let diam_s = string_from_chars(&diam);
                    match parse_unsigned_exec(&num, 0xffff_ffff) {
                        Some(n) => {
                            if is_float_text(&diam) {
                                let inches = match self.units {
                                    ExcellonUnits::Inches => true,
                                    ExcellonUnits::Metric => false,
                                };
                                let ghost before = self.tools@;
                                self.tools.insert(n as u32, ToolDef { diameter: diam_s, inches });
                                assert(tools_view(self.tools@) =~= tools_view(before).insert(
                                    n as u32,
                                    (diam@, inches),
                                ));
                            }
                        },
                        None => {},
                    }
                },
                None => {},
            }
        }
    }
}

/// Index of the first ASCII letter at or after `from`, or the length.
fn next_letter_exec(s: &[char], from: usize) -> (res: usize)
    requires
        from <= s.len(),
    ensures
        res == next_letter(s@, from as int),
        from <= res <= s.len(),
    decreases s.len() - from,
{
    if from >= s.len() {
        s.len()
    } else if ('A' <= s[from] && s[from] <= 'Z') || ('a' <= s[from] && s[from] <= 'z') {
        from
    } else {
        next_letter_exec(s, from + 1)
    }
}

/// The last `X` and `Y` fields of a coordinate line.
fn coord_fields_exec(s: &[char]) -> (res: (Option<Vec<char>>, Option<Vec<char>>))
    ensures
        (match res.0 {
            Some(v) => Some(v@),
            None => None,
        }, match res.1 {
            Some(v) => Some(v@),
            None => None,
        }) == coord_fields(s@, 0, None, None),
{
    let mut x: Option<Vec<char>> = None;
    let mut y: Option<Vec<char>> = None;
    let mut i: usize = 0;
    while i < s.len()
        invariant
            i <= s.len(),
            coord_fields(s@, 0, None, None) == coord_fields(s@, i as int, match x {
                Some(v) => Some(v@),
                None => None,
            }, match y {
                Some(v) => Some(v@),
                None => None,
            }),
        decreases s.len() - i,
    {
        if s[i] == 'X' {
            let end = next_letter_exec(s, i + 1);
            x = Some(slice_chars(s, i + 1, end));
            i = end;
        } else if s[i] == 'Y' {
            let end = next_letter_exec(s, i + 1);
            y = Some(slice_chars(s, i + 1, end));
            i = end;
        } else {
            i += 1;
        }
    }
    (x, y)
}

/// The digits of a string, in order.
fn digits_of_exec(s: &[char]) -> (res: Vec<char>)
    ensures
        res@ == digits_of(s@),
{
    let mut out: Vec<char> = Vec::new();
    let mut i: usize = 0;
    while i < s.len()
        invariant
            i <= s.len(),
            out@ == digits_of(s@.take(i as int)),
        decreases s.len() - i,
    {
        assert(s@.take(i + 1).drop_last() == s@.take(i as int));
        if '0' <= s[i] && s[i] <= '9' {
            out.push(s[i]);
        }
        i += 1;
    }
    assert(s@.take(s.len() as int) == s@);
    out
}

/// Reads one coordinate field.
fn coord_value_exec(s: &[char], decimals: u8) -> (res: Option<CoordValue>)
    ensures
        match res {
            Some(v) => coord_value(s@, decimals) == Some(v@),
            None => coord_value(s@, decimals) is None,
        },
{
    proof {
        reveal(coord_value);
    }
    if s.len() == 0 {
        return None;
    }
    if contains_str(s, ".") {
        if is_float_text(s) {
            return Some(CoordValue::Decimal(string_from_chars(s)));
        }
        return None;
    }
    let digits = digits_of_exec(s);
    match parse_unsigned_exec(&digits, 0x7fff_ffff_ffff_ffff) {
        Some(v) => {
            if digits.len() > 0 {
                Some(CoordValue::Scaled { raw: v as i64, decimals, negative: starts_with_str(s, "-") })
            } else {
                None
            }
        },
        None => None,
    }
}

/// The leading digits of a string.
fn leading_digits_exec(s: &[char]) -> (res: Vec<char>)
    ensures
        res@ == leading_digits(s@),
{
    let mut i: usize = 0;
    assert(s@.skip(0) == s@);
    assert(s@.take(0) + leading_digits(s@) == leading_digits(s@));
    while i < s.len() && '0' <= s[i] && s[i] <= '9'
        invariant
            i <= s.len(),
            leading_digits(s@) == s@.take(i as int) + leading_digits(s@.skip(i as int)),
        decreases s.len() - i,
    {
        assert(s@.skip(i as int).drop_first() == s@.skip(i + 1));
        assert(s@.take(i + 1) == s@.take(i as int) + seq![s@[i as int]]);
        i += 1;
    }
    proof {
        assert(leading_digits(s@.skip(i as int)) == Seq::<char>::empty());
        assert(s@.take(i as int) + Seq::<char>::empty() == s@.take(i as int));
    }
    slice_chars(s, 0, i)
}

impl Reader {
    fn body_line(&mut self, upper: &[char])
        ensures
            final(self)@ == body_line(old(self)@, upper@),
    {
        proof {
            reveal(body_line);
        }
        broadcast use vstd::std_specs::hash::group_hash_axioms;
        proof {
            reveal_strlit("T");
        }
        if starts_with_str(upper, "T") && !contains_str(upper, "C") {
            let rest = slice_chars(upper, 1, upper.len());
            assert(rest@ == upper@.drop_first());
            let digits = leading_digits_exec(&rest);
            match parse_unsigned_exec(&digits, 0xffff_ffff) {
                Some(n) => {
                    self.current = Some(n as u32);
                },
                None => {},
            }
        } else if starts_with_str(upper, "X") || starts_with_str(upper, "Y") {
            let t = match self.current {
                Some(t) => t,
                None => return,
            };
            let tool = match self.tools.get(&t) {
                Some(tool) => ToolDef { diameter: to_string(tool.diameter.as_str()), inches: tool.inches },
                None => return,
            };
            let (fx, fy) = coord_fields_exec(upper);
            let (xs, ys) = match (fx, fy) {
                (Some(a), Some(b)) => (a, b),
                _ => return,
            };
            let x = match coord_value_exec(&xs, self.decimal) {
                Some(v) => v,
                None => return,
            };
            let y = match coord_value_exec(&ys, self.decimal) {
                Some(v) => v,
                None => return,
            };
            let inches = match self.units {
                ExcellonUnits::Inches => true,
                ExcellonUnits::Metric => false,
            };
            let ghost before = hits_view(self.hits@);
            let hit = DrillHit { x, y, inches, tool };
            let ghost hv = hit@;
            self.hits.push(hit);
            assert(hits_view(self.hits@) == before.push(hv));
        }
    }

    /// Reads one raw line; whether it ends the file.
    fn line_step(&mut self, raw: &[char]) -> (stop: bool)
        ensures
            (final(self)@, stop) == line_step(old(self)@, raw@),
    {
        proof {
            reveal(line_step);
        }
        proof {
            reveal_strlit(";");
        }
        let line = trim_chars(raw);
        if line.len() == 0 || starts_with_str(&line, ";") {
            return false;
        }
        if eq_str(&line, "M48") {
            self.in_header = true;
            self.saw_header = true;
            return false;
        }
        if eq_str(&line, "%") || eq_str(&line, "M95") {
            self.in_header = false;
            return false;
        }
        if eq_str(&line, "M30") || eq_str(&line, "M00") {
            return true;
        }
        let line_s = string_from_chars(&line);
        let upper_s = to_uppercase(line_s.as_str());
        let upper = chars_of(upper_s.as_str());
        if self.in_header {
            self.header_line(&upper);
        } else {
            self.body_line(&upper);
        }
        false
    }
}

/// Parses an Excellon drill file into its drill hits. Returns `None` when
/// the content does not look like an Excellon file.
pub fn parse_excellon(content: &str) -> (res: Option<Vec<DrillHit>>)
    ensures
        match res {
            Some(v) => excellon_spec(content@) == Some(hits_view(v@)),
            None => excellon_spec(content@) is None,
        },
{
    broadcast use vstd::std_specs::hash::group_hash_axioms;
    let cs = chars_of(content);
    let trimmed = trim_chars(&cs);
    if !contains_str(&trimmed, "M48") {
        return None;
    }
    let mut r = Reader {
        units: ExcellonUnits::Metric,
        zero_sup: ZeroSuppression::Trailing,
        integer: 3,
        decimal: 3,
        tools: HashMap::new(),
        current: None,
        hits: Vec::new(),
        in_header: false,
        saw_header: false,
    };
    assert(r@.tools =~= Map::<u32, (Seq<char>, bool)>::empty());
    assert(r@.hits =~= Seq::<HitView>::empty());
    assert(r@ == initial_state());
    let mut rest: Vec<char> = cs;
    loop
        invariant_except_break
            run_lines(initial_state(), content@) == run_lines(r@, rest@),
        ensures
            run_lines(initial_state(), content@) == r@,
        decreases rest.len(),
    {
        let (line, next) = match split_once_char(&rest, '\n') {
            Some((a, b)) => (a, Some(b)),
            None => (slice_chars(&rest, 0, rest.len()), None),
        };
        let ghost st0 = r@;
        assert(line@ == before_first(rest@, '\n'));
        let stop = r.line_step(&line);
        assert(line_step(st0, before_first(rest@, '\n')) == (r@, stop));
        if stop {
            assert(run_lines(st0, rest@) == r@);
            break;
        }
        match next {
            Some(n) => {
                assert(run_lines(st0, rest@) == run_lines(r@, n@));
                rest = n;
            },
            None => {
                assert(run_lines(st0, rest@) == r@);
                break;
            },
        }
    }
    proof {
        assert(tools_view(r.tools@).dom() =~= r.tools@.dom());
    }
    let no_tools = r.tools.len() == 0;
    if !r.saw_header && no_tools && r.hits.len() == 0 {
        return None;
    }
    let hits = r.hits;
    Some(hits)
}

} // verus!
