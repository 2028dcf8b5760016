//! Aperture macros: the arithmetic expressions of their parameters and the
//! primitives of their bodies. Numbers are kept as their decimal text, each
//! one that `str::parse` reads as a 64-bit float.
use vstd::prelude::*;

use crate::error::ExtractError;
use crate::text::{chars_of, digits_value, is_digit, parse_unsigned, parse_unsigned_exec, slice_chars, string_from_chars};
use super::commands::{chars_views, digits_end, lemma_digits_end, lemma_split_nonempty, split_fields, split_fields_exec, strings_view};
use super::excellon::{float_syntax, is_float_text};

verus! {

// ───────────────────────────── expressions ─────────────────────────────

/// Expression node of a macro parameter: literals (decimal text), variable
/// references (`$1` is `Variable(1)`), and arithmetic.
#[derive(Debug, PartialEq)]
pub enum Expr {
    Literal(String),
    Variable(u32),
    Add(Box<Expr>, Box<Expr>),
    Sub(Box<Expr>, Box<Expr>),
    Mul(Box<Expr>, Box<Expr>),
    Div(Box<Expr>, Box<Expr>),
}

/// The mathematical content of an [`Expr`].
pub enum ExprView {
    Literal(Seq<char>),
    Variable(u32),
    Add(Box<ExprView>, Box<ExprView>),
    Sub(Box<ExprView>, Box<ExprView>),
    Mul(Box<ExprView>, Box<ExprView>),
    Div(Box<ExprView>, Box<ExprView>),
}

/// The view of an expression.
pub open spec fn expr_view(e: Expr) -> ExprView
    decreases e,
{
    match e {
        Expr::Literal(s) => ExprView::Literal(s@),
        Expr::Variable(v) => ExprView::Variable(v),
        Expr::Add(a, b) => ExprView::Add(Box::new(expr_view(*a)), Box::new(expr_view(*b))),
        Expr::Sub(a, b) => ExprView::Sub(Box::new(expr_view(*a)), Box::new(expr_view(*b))),
        Expr::Mul(a, b) => ExprView::Mul(Box::new(expr_view(*a)), Box::new(expr_view(*b))),
        Expr::Div(a, b) => ExprView::Div(Box::new(expr_view(*a)), Box::new(expr_view(*b))),
    }
}

impl View for Expr {
    type V = ExprView;

    open spec fn view(&self) -> ExprView {
        expr_view(*self)
    }
}

/// A copy of an expression.
pub fn copy_expr(e: &Expr) -> (res: Expr)
    ensures
        res@ == e@,
    decreases e,
{
    match e {
        Expr::Literal(s) => Expr::Literal(s.clone()),
        Expr::Variable(v) => Expr::Variable(*v),
        Expr::Add(a, b) => Expr::Add(Box::new(copy_expr(a)), Box::new(copy_expr(b))),
        Expr::Sub(a, b) => Expr::Sub(Box::new(copy_expr(a)), Box::new(copy_expr(b))),
        Expr::Mul(a, b) => Expr::Mul(Box::new(copy_expr(a)), Box::new(copy_expr(b))),
        Expr::Div(a, b) => Expr::Div(Box::new(copy_expr(a)), Box::new(copy_expr(b))),
    }
}

impl Clone for Expr {
    fn clone(&self) -> (res: Self)
        ensures
            res@ == self@,
    {
        copy_expr(self)
    }
}

// ───────────────────────────── expression tokens ─────────────────────────────

/// A token of a macro expression. `x` or `X` multiplies (a `*` would end the
/// statement).
#[derive(Debug)]
pub enum ExprToken {
    Num(String),
    Var(u32),
    Plus,
    Minus,
    Mul,
    Div,
    LParen,
    RParen,
}

/// The mathematical content of an [`ExprToken`].
pub enum TokView {
    Num(Seq<char>),
    Var(u32),
    Plus,
    Minus,
    Mul,
    Div,
    LParen,
    RParen,
}

impl View for ExprToken {
    type V = TokView;

    open spec fn view(&self) -> TokView {
        match self {
            ExprToken::Num(s) => TokView::Num(s@),
            ExprToken::Var(v) => TokView::Var(*v),
            ExprToken::Plus => TokView::Plus,
            ExprToken::Minus => TokView::Minus,
            ExprToken::Mul => TokView::Mul,
            ExprToken::Div => TokView::Div,
            ExprToken::LParen => TokView::LParen,
            ExprToken::RParen => TokView::RParen,
        }
    }
}

/// The view of each token.
pub open spec fn toks_view(v: Seq<ExprToken>) -> Seq<TokView> {
    Seq::new(v.len(), |i: int| v[i]@)
}

/// A character of a number: an ASCII digit or a point.
pub open spec fn num_char(c: char) -> bool {
    is_digit(c) || c == '.'
}

/// The index of the first character at or after `from` that is no number
/// character, or the length.
pub open spec fn num_end(s: Seq<char>, from: int) -> int
    decreases s.len() - from,
{
    if 0 <= from < s.len() && num_char(s[from]) {
        num_end(s, from + 1)
    } else {
        from
    }
}

pub proof fn lemma_num_end(s: Seq<char>, from: int)
    requires
        0 <= from <= s.len(),
    ensures
        from <= num_end(s, from) <= s.len(),
        from < s.len() && num_char(s[from]) ==> from < num_end(s, from),
    decreases s.len() - from,
{
    if from < s.len() && num_char(s[from]) {
        lemma_num_end(s, from + 1);
    }
}

/// Whether a `-` after these tokens starts a negative number: at the start,
/// or after an operator or an opening parenthesis.
pub open spec fn unary_position(acc: Seq<TokView>) -> bool {
    acc.len() == 0 || match acc.last() {
        TokView::Plus | TokView::Minus | TokView::Mul | TokView::Div | TokView::LParen => true,
        _ => false,
    }
}

/// The tokens of `s` from character `pos` on, after the tokens `acc`:
/// blanks and tabs are skipped; `+`, `x`/`X`, `/` and parentheses are
/// operators; `-` is a minus, or the sign of a number where a number may
/// start; `$` and digits is a variable; digits and points make a number.
/// Anything else is an error.
pub open spec fn lex_expr(s: Seq<char>, pos: int, acc: Seq<TokView>) -> Result<Seq<TokView>, Seq<char>>
    decreases s.len() - pos,
{
    if pos < 0 || pos >= s.len() {
        Ok(acc)
    } else {
        let ch = s[pos];
        if ch == ' ' || ch == '\t' {
            lex_expr(s, pos + 1, acc)
        } else if ch == '+' {
            lex_expr(s, pos + 1, acc.push(TokView::Plus))
        } else if ch == '-' {
            if unary_position(acc) && pos + 1 < s.len() && num_char(s[pos + 1]) {
                let end = num_end(s, pos + 1);
                proof {
                    lemma_num_end(s, pos + 1);
                }
                let t = seq!['-'] + s.subrange(pos + 1, end);
                if float_syntax(t) {
                    lex_expr(s, end, acc.push(TokView::Num(t)))
                } else {
                    Err("AM expr: bad number: "@ + t)
                }
            } else {
                lex_expr(s, pos + 1, acc.push(TokView::Minus))
            }
        } else if ch == 'x' || ch == 'X' {
            lex_expr(s, pos + 1, acc.push(TokView::Mul))
        } else if ch == '/' {
            lex_expr(s, pos + 1, acc.push(TokView::Div))
        } else if ch == '(' {
            lex_expr(s, pos + 1, acc.push(TokView::LParen))
        } else if ch == ')' {
            lex_expr(s, pos + 1, acc.push(TokView::RParen))
        } else if ch == '$' {
            let end = digits_end(s, pos + 1);
            proof {
                lemma_digits_end(s, pos + 1);
            }
            let t = s.subrange(pos + 1, end);
            match parse_unsigned(t, 0xffff_ffff) {
                Some(v) => lex_expr(s, end, acc.push(TokView::Var(v as u32))),
                None => Err("AM expr: bad variable: $"@ + t),
            }
        } else if num_char(ch) {
            let end = num_end(s, pos);
            proof {
                lemma_num_end(s, pos);
            }
            let t = s.subrange(pos, end);
            if float_syntax(t) {
                lex_expr(s, end, acc.push(TokView::Num(t)))
            } else {
                Err("AM expr: bad number: "@ + t)
            }
        } else {
            Err("AM expr: unexpected char '"@ + seq![ch] + "' in: "@ + s)
        }
    }
}

/// Index of the first non-number character at or after `from`.
fn num_end_exec(s: &[char], from: usize) -> (res: usize)
    requires
        from <= s.len(),
    ensures
        res == num_end(s@, from as int),
        from <= res <= s.len(),
{
    let mut i = from;
    while i < s.len() && (('0' <= s[i] && s[i] <= '9') || s[i] == '.')
        invariant
            from <= i <= s.len(),
            num_end(s@, from as int) == num_end(s@, i as int),
        decreases s.len() - i,
    {
        i += 1;
    }
    i
}

/// A parse error with a message made of a prefix and some text.
fn error_with(prefix: &str, rest: &[char]) -> (res: ExtractError)
    ensures
        res matches ExtractError::ParseError(m) && m@ == prefix@ + rest@,
{
    let mut m = crate::text::to_string(prefix);
    crate::text::push_chars(&mut m, rest);
    ExtractError::ParseError(m)
}

/// Splits a macro expression into tokens.
#[verifier::rlimit(40)]
fn tokenize_expr(s: &[char]) -> (res: Result<Vec<ExprToken>, ExtractError>)
    ensures
        match lex_expr(s@, 0, seq![]) {
            Ok(ts) => res matches Ok(v) && toks_view(v@) == ts,
            Err(m) => res matches Err(ExtractError::ParseError(e)) && e@ == m,
        },
{
    let mut tokens: Vec<ExprToken> = Vec::new();
    let mut pos: usize = 0;
    assert(toks_view(tokens@) =~= seq![]);
    while pos < s.len()
        invariant
            pos <= s.len(),
            lex_expr(s@, 0, seq![]) == lex_expr(s@, pos as int, toks_view(tokens@)),
        decreases s.len() - pos,
    {
        let ch = s[pos];
        let ghost before = toks_view(tokens@);
        if ch == ' ' || ch == '\t' {
            pos += 1;
        } else if ch == '-' {
            let unary = tokens.len() == 0 || match &tokens[tokens.len() - 1] {
                ExprToken::Plus | ExprToken::Minus | ExprToken::Mul | ExprToken::Div | ExprToken::LParen => true,
                _ => false,
            };
            assert(tokens.len() > 0 ==> toks_view(tokens@).last() == tokens@[tokens.len() - 1]@);
            if unary && pos + 1 < s.len() && (('0' <= s[pos + 1] && s[pos + 1] <= '9') || s[pos + 1] == '.') {
                let end = num_end_exec(s, pos + 1);
                let mut t: Vec<char> = vec!['-'];
                t.append(&mut slice_chars(s, pos + 1, end));
                assert(t@ =~= seq!['-'] + s@.subrange(pos + 1, end as int));
                if !is_float_text(&t) {
                    return Err(error_with("AM expr: bad number: ", &t));
                }
                tokens.push(ExprToken::Num(string_from_chars(&t)));
                assert(toks_view(tokens@) =~= before.push(TokView::Num(t@)));
                pos = end;
            } else {
                tokens.push(ExprToken::Minus);
                assert(toks_view(tokens@) =~= before.push(TokView::Minus));
                pos += 1;
            }
        } else if ch == '$' {
            let end = digits_end_exec(s, pos + 1);
            let t = slice_chars(s, pos + 1, end);
            match parse_unsigned_exec(&t, 0xffff_ffff) {
                Some(v) => {
                    tokens.push(ExprToken::Var(v as u32));
                    assert(toks_view(tokens@) =~= before.push(TokView::Var(v as u32)));
                    pos = end;
                },
                None => return Err(error_with("AM expr: bad variable: $", &t)),
            }
        } else if ('0' <= ch && ch <= '9') || ch == '.' {
            let end = num_end_exec(s, pos);
            proof {
                lemma_num_end(s@, pos as int);
            }
            let t = slice_chars(s, pos, end);
            if !is_float_text(&t) {
                return Err(error_with("AM expr: bad number: ", &t));
            }
            tokens.push(ExprToken::Num(string_from_chars(&t)));
            assert(toks_view(tokens@) =~= before.push(TokView::Num(t@)));
            pos = end;
        } else {
            let tok = if ch == '+' {
                ExprToken::Plus
            } else if ch == 'x' || ch == 'X' {
                ExprToken::Mul
            } else if ch == '/' {
                ExprToken::Div
            } else if ch == '(' {
                ExprToken::LParen
            } else if ch == ')' {
                ExprToken::RParen
            } else {
                let mut m = crate::text::to_string("AM expr: unexpected char '");
                crate::text::push_char(&mut m, ch);
                crate::text::push_str(&mut m, "' in: ");
                crate::text::push_chars(&mut m, s);
                return Err(ExtractError::ParseError(m));
            };
            let ghost tv = tok@;
            tokens.push(tok);
            assert(toks_view(tokens@) =~= before.push(tv));
            pos += 1;
        }
    }
    Ok(tokens)
}

/// Index of the first non-digit at or after `from`.
fn digits_end_exec(s: &[char], from: usize) -> (res: usize)
    requires
        from <= s.len(),
    ensures
        res == digits_end(s@, from as int),
        from <= res <= s.len(),
{
    let mut i = from;
    while i < s.len() && '0' <= s[i] && s[i] <= '9'
        invariant
            from <= i <= s.len(),
            digits_end(s@, from as int) == digits_end(s@, i as int),
        decreases s.len() - i,
    {
        i += 1;
    }
    i
}

// ───────────────────────────── expression grammar ─────────────────────────────

/// An atom at token `pos`: a number, a variable, or an expression in
/// parentheses; with the index after it.
pub open spec fn p_atom(t: Seq<TokView>, pos: int) -> Result<(ExprView, int), Seq<char>>
    decreases t.len() - pos, 0int,
{
    if 0 <= pos < t.len() {
        match t[pos] {
            TokView::Num(v) => Ok((ExprView::Literal(v), pos + 1)),
            TokView::Var(i) => Ok((ExprView::Variable(i), pos + 1)),
            TokView::LParen => match p_add(t, pos + 1) {
                Err(m) => Err(m),
                Ok((e, r)) => if 0 <= r < t.len() && t[r] is RParen {
                    Ok((e, r + 1))
                } else {
                    Err("AM expr: missing closing paren"@)
                },
            },
            _ => Err("AM expr: unexpected end of expression"@),
        }
    } else {
        Err("AM expr: unexpected end of expression"@)
    }
}

/// Products and quotients at token `pos`, left to right.
pub open spec fn p_mul(t: Seq<TokView>, pos: int) -> Result<(ExprView, int), Seq<char>>
    decreases t.len() - pos, 1int,
{
    match p_atom(t, pos) {
        Err(m) => Err(m),
        Ok((l, r)) => if pos < r <= t.len() {
            p_mul_rest(t, l, r)
        } else {
            Ok((l, r))
        },
    }
}

/// The rest of a product after `left`, from token `r` on.
pub open spec fn p_mul_rest(t: Seq<TokView>, left: ExprView, r: int) -> Result<(ExprView, int), Seq<char>>
    decreases t.len() - r, 2int,
{
    if 0 <= r < t.len() && (t[r] is Mul || t[r] is Div) {
        match p_atom(t, r + 1) {
            Err(m) => Err(m),
            Ok((right, r2)) => {
                let e = if t[r] is Mul {
                    ExprView::Mul(Box::new(left), Box::new(right))
                } else {
                    ExprView::Div(Box::new(left), Box::new(right))
                };
                if r + 1 < r2 <= t.len() {
                    p_mul_rest(t, e, r2)
                } else {
                    Ok((e, r2))
                }
            },
        }
    } else {
        Ok((left, r))
    }
}

/// Sums and differences at token `pos`, left to right.
pub open spec fn p_add(t: Seq<TokView>, pos: int) -> Result<(ExprView, int), Seq<char>>
    decreases t.len() - pos, 3int,
{
    match p_mul(t, pos) {
        Err(m) => Err(m),
        Ok((l, r)) => if pos < r <= t.len() {
            p_add_rest(t, l, r)
        } else {
            Ok((l, r))
        },
    }
}

/// The rest of a sum after `left`, from token `r` on.
pub open spec fn p_add_rest(t: Seq<TokView>, left: ExprView, r: int) -> Result<(ExprView, int), Seq<char>>
    decreases t.len() - r, 4int,
{
    if 0 <= r < t.len() && (t[r] is Plus || t[r] is Minus) {
        match p_mul(t, r + 1) {
            Err(m) => Err(m),
            Ok((right, r2)) => {
                let e = if t[r] is Plus {
                    ExprView::Add(Box::new(left), Box::new(right))
                } else {
                    ExprView::Sub(Box::new(left), Box::new(right))
                };
                if r + 1 < r2 <= t.len() {
                    p_add_rest(t, e, r2)
                } else {
                    Ok((e, r2))
                }
            },
        }
    } else {
        Ok((left, r))
    }
}

/// Whether an exec parse result matches its specification, the index
/// after it lying past `pos`.
pub open spec fn parsed_matches(res: Result<(Expr, usize), ExtractError>, spec: Result<(ExprView, int), Seq<char>>, pos: int, len: int) -> bool {
    match spec {
        Ok((e, r)) => res matches Ok((x, r2)) && x@ == e && r2 == r && pos < r <= len,
        Err(m) => res matches Err(ExtractError::ParseError(e)) && e@ == m,
    }
}

fn parse_atom(t: &Vec<ExprToken>, pos: usize) -> (res: Result<(Expr, usize), ExtractError>)
    requires
        pos <= t.len(),
    ensures
        parsed_matches(res, p_atom(toks_view(t@), pos as int), pos as int, t.len() as int),
    decreases t.len() - pos, 0usize,
{
    let ghost tv = toks_view(t@);
    if pos >= t.len() {
        return Err(error_with("AM expr: unexpected end of expression", &[]));
    }
    assert(tv[pos as int] == t@[pos as int]@);
    match &t[pos] {
        ExprToken::Num(v) => Ok((Expr::Literal(v.clone()), pos + 1)),
        ExprToken::Var(i) => Ok((Expr::Variable(*i), pos + 1)),
        ExprToken::LParen => {
            match parse_add_sub(t, pos + 1) {
                Err(e) => Err(e),
                Ok((e, r)) => {
                    if r < t.len() && matches!(t[r], ExprToken::RParen) {
                        assert(tv[r as int] == t@[r as int]@);
                        Ok((e, r + 1))
                    } else {
                        proof {
                            if r < t.len() {
                                assert(tv[r as int] == t@[r as int]@);
                            }
                        }
                        Err(error_with("AM expr: missing closing paren", &[]))
                    }
                },
            }
        },
        _ => Err(error_with("AM expr: unexpected end of expression", &[])),
    }
}

fn parse_mul_div(t: &Vec<ExprToken>, pos: usize) -> (res: Result<(Expr, usize), ExtractError>)
    requires
        pos <= t.len(),
    ensures
        parsed_matches(res, p_mul(toks_view(t@), pos as int), pos as int, t.len() as int),
    decreases t.len() - pos, 1usize,
{
    let ghost tv = toks_view(t@);
    let (mut left, mut rest) = match parse_atom(t, pos) {
        Err(e) => return Err(e),
        Ok(p) => p,
    };
    loop
        invariant
            pos < rest <= t.len(),
            tv == toks_view(t@),
            p_mul(tv, pos as int) == p_mul_rest(tv, left@, rest as int),
        decreases t.len() - rest,
    {
        if rest < t.len() && (matches!(t[rest], ExprToken::Mul) || matches!(t[rest], ExprToken::Div)) {
            assert(tv[rest as int] == t@[rest as int]@);
            let is_mul = matches!(t[rest], ExprToken::Mul);
            match parse_atom(t, rest + 1) {
                Err(e) => return Err(e),
                Ok((right, r2)) => {
                    left = if is_mul { Expr::Mul(Box::new(left), Box::new(right)) } else { Expr::Div(Box::new(left), Box::new(right)) };
                    rest = r2;
                },
            }
        } else {
            proof {
                if rest < t.len() {
                    assert(tv[rest as int] == t@[rest as int]@);
                }
            }
            return Ok((left, rest));
        }
    }
}

fn parse_add_sub(t: &Vec<ExprToken>, pos: usize) -> (res: Result<(Expr, usize), ExtractError>)
    requires
        pos <= t.len(),
    ensures
        parsed_matches(res, p_add(toks_view(t@), pos as int), pos as int, t.len() as int),
    decreases t.len() - pos, 3usize,
{
    let ghost tv = toks_view(t@);
    let (mut left, mut rest) = match parse_mul_div(t, pos) {
        Err(e) => return Err(e),
        Ok(p) => p,
    };
    loop
        invariant
            pos < rest <= t.len(),
            tv == toks_view(t@),
            p_add(tv, pos as int) == p_add_rest(tv, left@, rest as int),
        decreases t.len() - rest,
    {
        if rest < t.len() && (matches!(t[rest], ExprToken::Plus) || matches!(t[rest], ExprToken::Minus)) {
            assert(tv[rest as int] == t@[rest as int]@);
            let is_plus = matches!(t[rest], ExprToken::Plus);
            match parse_mul_div(t, rest + 1) {
                Err(e) => return Err(e),
                Ok((right, r2)) => {
                    left = if is_plus { Expr::Add(Box::new(left), Box::new(right)) } else { Expr::Sub(Box::new(left), Box::new(right)) };
                    rest = r2;
                },
            }
        } else {
            proof {
                if rest < t.len() {
                    assert(tv[rest as int] == t@[rest as int]@);
                }
            }
            return Ok((left, rest));
        }
    }
}

/// A macro expression: empty text is the number 0; otherwise its tokens
/// must form one sum.
pub open spec fn expr_spec(s: Seq<char>) -> Result<ExprView, Seq<char>> {
    let t = crate::text::trim(s);
    if t.len() == 0 {
        Ok(ExprView::Literal("0"@))
    } else {
        match lex_expr(t, 0, seq![]) {
            Err(m) => Err(m),
            Ok(toks) => match p_add(toks, 0) {
                Err(m) => Err(m),
                Ok((e, r)) => if r < toks.len() {
                    Err("AM expr: unexpected tokens after expression: "@ + t)
                } else {
                    Ok(e)
                },
            },
        }
    }
}

/// Parses a macro expression (`1.08239X$1`, `$1+$2-1.0`, `(2+3)x4`).
pub fn parse_expr(s: &str) -> (res: Result<Expr, ExtractError>)
    ensures
        match expr_spec(s@) {
            Ok(e) => res matches Ok(x) && x@ == e,
            Err(m) => res matches Err(ExtractError::ParseError(e)) && e@ == m,
        },
{
    let cs = chars_of(s);
    let t = crate::text::trim_chars(&cs);
    if t.len() == 0 {
        return Ok(Expr::Literal(crate::text::to_string("0")));
    }
    let tokens = match tokenize_expr(&t) {
        Err(e) => return Err(e),
        Ok(v) => v,
    };
    match parse_add_sub(&tokens, 0) {
        Err(e) => Err(e),
        Ok((e, r)) => if r < tokens.len() {
            Err(error_with("AM expr: unexpected tokens after expression: ", &t))
        } else {
            Ok(e)
        },
    }
}

// ───────────────────────────── macro bodies ─────────────────────────────

/// A single primitive within an aperture macro definition.
#[derive(Debug, Clone, PartialEq)]
pub enum MacroPrimitive {
    /// Code 0: Comment (ignored during evaluation)
    Comment,
    /// Code 1: Circle
    Circle { exposure: Expr, diameter: Expr, center_x: Expr, center_y: Expr, rotation: Option<Expr> },
    /// Code 20 (or 2): Vector line
    VectorLine { exposure: Expr, width: Expr, start_x: Expr, start_y: Expr, end_x: Expr, end_y: Expr, rotation: Expr },
    /// Code 21: Center line (rectangle by center)
    CenterLine { exposure: Expr, width: Expr, height: Expr, center_x: Expr, center_y: Expr, rotation: Expr },
    /// Code 4: Outline (arbitrary polygon): every parameter after the vertex
    /// count, and the last parameter as the rotation.
    Outline { exposure: Expr, num_points: Expr, points: Vec<Expr>, rotation: Expr },
    /// Code 5: Regular polygon
    Polygon { exposure: Expr, num_vertices: Expr, center_x: Expr, center_y: Expr, diameter: Expr, rotation: Expr },
    /// Code 7: Thermal (ring with gaps)
    Thermal { center_x: Expr, center_y: Expr, outer_diameter: Expr, inner_diameter: Expr, gap_thickness: Expr, rotation: Expr },
}

/// The mathematical content of a [`MacroPrimitive`].
pub enum PrimView {
    Comment,
    Circle { exposure: ExprView, diameter: ExprView, center_x: ExprView, center_y: ExprView, rotation: Option<ExprView> },
    VectorLine { exposure: ExprView, width: ExprView, start_x: ExprView, start_y: ExprView, end_x: ExprView, end_y: ExprView, rotation: ExprView },
    CenterLine { exposure: ExprView, width: ExprView, height: ExprView, center_x: ExprView, center_y: ExprView, rotation: ExprView },
    Outline { exposure: ExprView, num_points: ExprView, points: Seq<ExprView>, rotation: ExprView },
    Polygon { exposure: ExprView, num_vertices: ExprView, center_x: ExprView, center_y: ExprView, diameter: ExprView, rotation: ExprView },
    Thermal { center_x: ExprView, center_y: ExprView, outer_diameter: ExprView, inner_diameter: ExprView, gap_thickness: ExprView, rotation: ExprView },
}

/// The view of each expression.
pub open spec fn exprs_view(v: Seq<Expr>) -> Seq<ExprView> {
    Seq::new(v.len(), |i: int| v[i]@)
}

/// The view of an optional expression.
pub open spec fn opt_expr_view(o: Option<Expr>) -> Option<ExprView> {
    match o {
        Some(e) => Some(e@),
        None => None,
    }
}

impl View for MacroPrimitive {
    type V = PrimView;

    open spec fn view(&self) -> PrimView {
        match self {
            MacroPrimitive::Comment => PrimView::Comment,
            MacroPrimitive::Circle { exposure, diameter, center_x, center_y, rotation } => PrimView::Circle {
                exposure: exposure@, diameter: diameter@, center_x: center_x@, center_y: center_y@, rotation: opt_expr_view(*rotation),
            },
            MacroPrimitive::VectorLine { exposure, width, start_x, start_y, end_x, end_y, rotation } => PrimView::VectorLine {
                exposure: exposure@, width: width@, start_x: start_x@, start_y: start_y@, end_x: end_x@, end_y: end_y@, rotation: rotation@,
            },
            MacroPrimitive::CenterLine { exposure, width, height, center_x, center_y, rotation } => PrimView::CenterLine {
                exposure: exposure@, width: width@, height: height@, center_x: center_x@, center_y: center_y@, rotation: rotation@,
            },
            MacroPrimitive::Outline { exposure, num_points, points, rotation } => PrimView::Outline {
                exposure: exposure@, num_points: num_points@, points: exprs_view(points@), rotation: rotation@,
            },
            MacroPrimitive::Polygon { exposure, num_vertices, center_x, center_y, diameter, rotation } => PrimView::Polygon {
                exposure: exposure@, num_vertices: num_vertices@, center_x: center_x@, center_y: center_y@, diameter: diameter@, rotation: rotation@,
            },
            MacroPrimitive::Thermal { center_x, center_y, outer_diameter, inner_diameter, gap_thickness, rotation } => PrimView::Thermal {
                center_x: center_x@, center_y: center_y@, outer_diameter: outer_diameter@, inner_diameter: inner_diameter@,
                gap_thickness: gap_thickness@, rotation: rotation@,
            },
        }
    }
}

/// The expressions of parameter texts, in order; the first bad one is the
/// error.
pub open spec fn exprs_spec(ps: Seq<Seq<char>>) -> Result<Seq<ExprView>, Seq<char>>
    decreases ps.len(),
{
    if ps.len() == 0 {
        Ok(seq![])
    } else {
        match exprs_spec(ps.drop_last()) {
            Err(m) => Err(m),
            Ok(es) => match expr_spec(ps.last()) {
                Err(m) => Err(m),
                Ok(e) => Ok(es.push(e)),
            },
        }
    }
}

/// What one body line comes to.
pub enum LineOutcome {
    Skip,
    Prim(PrimView),
    Fail(Seq<char>),
}

/// The primitive of a code and its parameter expressions: each shape needs
/// a number of parameters; unknown codes are skipped.
pub open spec fn prim_of(code: nat, es: Seq<ExprView>) -> LineOutcome {
    if code == 1 {
        if es.len() < 4 {
            LineOutcome::Fail("AM circle: need at least 4 params"@)
        } else {
            LineOutcome::Prim(PrimView::Circle {
                exposure: es[0], diameter: es[1], center_x: es[2], center_y: es[3],
                rotation: if es.len() > 4 { Some(es[4]) } else { None },
            })
        }
    } else if code == 2 || code == 20 {
        if es.len() < 7 {
            LineOutcome::Fail("AM vector line: need 7 params"@)
        } else {
            LineOutcome::Prim(PrimView::VectorLine {
                exposure: es[0], width: es[1], start_x: es[2], start_y: es[3], end_x: es[4], end_y: es[5], rotation: es[6],
            })
        }
    } else if code == 21 {
        if es.len() < 6 {
            LineOutcome::Fail("AM center line: need 6 params"@)
        } else {
            LineOutcome::Prim(PrimView::CenterLine {
                exposure: es[0], width: es[1], height: es[2], center_x: es[3], center_y: es[4], rotation: es[5],
            })
        }
    } else if code == 4 {
        if es.len() < 2 {
            LineOutcome::Fail("AM outline: need at least 2 params"@)
        } else {
            LineOutcome::Prim(PrimView::Outline { exposure: es[0], num_points: es[1], points: es.skip(2), rotation: es.last() })
        }
    } else if code == 5 {
        if es.len() < 6 {
            LineOutcome::Fail("AM polygon: need 6 params"@)
        } else {
            LineOutcome::Prim(PrimView::Polygon {
                exposure: es[0], num_vertices: es[1], center_x: es[2], center_y: es[3], diameter: es[4], rotation: es[5],
            })
        }
    } else if code == 7 {
        if es.len() < 6 {
            LineOutcome::Fail("AM thermal: need 6 params"@)
        } else {
            LineOutcome::Prim(PrimView::Thermal {
                center_x: es[0], center_y: es[1], outer_diameter: es[2], inner_diameter: es[3], gap_thickness: es[4], rotation: es[5],
            })
        }
    } else {
        LineOutcome::Skip
    }
}

/// One body line (`5,1,8,0,0,1.08239X$1,22.5`): blank lines are skipped,
/// `0` or `0 ...` is a comment; otherwise comma-separated fields, the first
/// the primitive code (a `u32`) and the rest its parameter expressions.
pub open spec fn line_spec(line: Seq<char>) -> LineOutcome {
    let t = crate::text::trim(line);
    if t.len() == 0 {
        LineOutcome::Skip
    } else if crate::text::starts_with(t, "0 "@) || t == "0"@ {
        LineOutcome::Prim(PrimView::Comment)
    } else {
        let parts = split_fields(t, ',');
        match parse_unsigned(crate::text::trim(parts[0]), 0xffff_ffff) {
            None => LineOutcome::Fail("AM: bad primitive code: "@ + parts[0]),
            Some(code) => match exprs_spec(parts.skip(1)) {
                Err(m) => LineOutcome::Fail(m),
                Ok(es) => prim_of(code, es),
            },
        }
    }
}

/// The primitives of a macro body, in order; the first bad line is the
/// error.
pub open spec fn body_spec(lines: Seq<Seq<char>>) -> Result<Seq<PrimView>, Seq<char>>
    decreases lines.len(),
{
    if lines.len() == 0 {
        Ok(seq![])
    } else {
        match body_spec(lines.drop_last()) {
            Err(m) => Err(m),
            Ok(ps) => match line_spec(lines.last()) {
                LineOutcome::Skip => Ok(ps),
                LineOutcome::Prim(p) => Ok(ps.push(p)),
                LineOutcome::Fail(m) => Err(m),
            },
        }
    }
}

proof fn lemma_exprs_err_extends(ps: Seq<Seq<char>>, k: int)
    requires
        0 <= k <= ps.len(),
        exprs_spec(ps.take(k)) is Err,
    ensures
        exprs_spec(ps) == exprs_spec(ps.take(k)),
    decreases ps.len() - k,
{
    if k < ps.len() {
        assert(ps.take(k + 1).drop_last() =~= ps.take(k));
        lemma_exprs_err_extends(ps, k + 1);
    } else {
        assert(ps.take(k) =~= ps);
    }
}

proof fn lemma_body_err_extends(ls: Seq<Seq<char>>, k: int)
    requires
        0 <= k <= ls.len(),
        body_spec(ls.take(k)) is Err,
    ensures
        body_spec(ls) == body_spec(ls.take(k)),
    decreases ls.len() - k,
{
    if k < ls.len() {
        assert(ls.take(k + 1).drop_last() =~= ls.take(k));
        lemma_body_err_extends(ls, k + 1);
    } else {
        assert(ls.take(k) =~= ls);
    }
}

/// The expressions of parameter texts.
fn parse_exprs(ps: &[Vec<char>]) -> (res: Result<Vec<Expr>, ExtractError>)
    ensures
        match exprs_spec(chars_views(ps@)) {
            Ok(es) => res matches Ok(v) && exprs_view(v@) == es,
            Err(m) => res matches Err(ExtractError::ParseError(e)) && e@ == m,
        },
{
    let ghost pv = chars_views(ps@);
    let mut out: Vec<Expr> = Vec::new();
    let mut i: usize = 0;
    assert(pv.take(0) =~= seq![]);
    assert(exprs_view(out@) =~= seq![]);
    while i < ps.len()
        invariant
            i <= ps.len(),
            pv == chars_views(ps@),
            exprs_spec(pv.take(i as int)) == Ok::<Seq<ExprView>, Seq<char>>(exprs_view(out@)),
        decreases ps.len() - i,
    {
        assert(pv.take(i + 1).drop_last() =~= pv.take(i as int));
        assert(pv.take(i + 1).last() == ps@[i as int]@);
        let text = string_from_chars(&ps[i]);
        match parse_expr(text.as_str()) {
            Err(e) => {
                proof {
                    lemma_exprs_err_extends(pv, i + 1);
                }
                return Err(e);
            },
            Ok(e) => {
                let ghost before = out@;
                let ghost ev = e@;
                out.push(e);
                assert(exprs_view(out@) =~= exprs_view(before).push(ev));
            },
        }
        i += 1;
    }
    assert(pv.take(ps.len() as int) =~= pv);
    Ok(out)
}

/// Copies of the expressions `es[from..]`.
fn copy_exprs_from(es: &Vec<Expr>, from: usize) -> (res: Vec<Expr>)
    requires
        from <= es.len(),
    ensures
        exprs_view(res@) == exprs_view(es@).skip(from as int),
{
    let mut out: Vec<Expr> = Vec::new();
    let mut i = from;
    while i < es.len()
        invariant
            from <= i <= es.len(),
            exprs_view(out@) == exprs_view(es@).subrange(from as int, i as int),
        decreases es.len() - i,
    {
        let ghost before = out@;
        out.push(copy_expr(&es[i]));
        assert(exprs_view(out@) =~= exprs_view(before).push(es@[i as int]@));
        assert(exprs_view(es@).subrange(from as int, i + 1) =~= exprs_view(es@).subrange(from as int, i as int).push(es@[i as int]@));
        i += 1;
    }
    assert(exprs_view(es@).subrange(from as int, es.len() as int) =~= exprs_view(es@).skip(from as int));
    out
}

/// Whether a line result matches its outcome.
pub open spec fn outcome_matches(res: Result<Option<MacroPrimitive>, ExtractError>, o: LineOutcome) -> bool {
    match o {
        LineOutcome::Skip => res matches Ok(None),
        LineOutcome::Prim(p) => res matches Ok(Some(x)) && x@ == p,
        LineOutcome::Fail(m) => res matches Err(ExtractError::ParseError(e)) && e@ == m,
    }
}

/// The primitive of a code and its parameter expressions.
#[verifier::rlimit(40)]
fn primitive_of(code: u32, es: &Vec<Expr>) -> (res: Result<Option<MacroPrimitive>, ExtractError>)
    ensures
        outcome_matches(res, prim_of(code as nat, exprs_view(es@))),
{
    let ghost ev = exprs_view(es@);
    let n = es.len();
    proof {
        assert forall|k: int| 0 <= k < n implies #[trigger] ev[k] == es@[k]@ by {}
    }
    if code == 1 {
        if n < 4 {
            return Err(error_with("AM circle: need at least 4 params", &[]));
        }
        let rotation = if n > 4 { Some(copy_expr(&es[4])) } else { None };
        Ok(Some(MacroPrimitive::Circle {
            exposure: copy_expr(&es[0]), diameter: copy_expr(&es[1]), center_x: copy_expr(&es[2]), center_y: copy_expr(&es[3]), rotation,
        }))
    } else if code == 2 || code == 20 {
        if n < 7 {
            return Err(error_with("AM vector line: need 7 params", &[]));
        }
        Ok(Some(MacroPrimitive::VectorLine {
            exposure: copy_expr(&es[0]), width: copy_expr(&es[1]), start_x: copy_expr(&es[2]), start_y: copy_expr(&es[3]),
            end_x: copy_expr(&es[4]), end_y: copy_expr(&es[5]), rotation: copy_expr(&es[6]),
        }))
    } else if code == 21 {
        if n < 6 {
            return Err(error_with("AM center line: need 6 params", &[]));
        }
        Ok(Some(MacroPrimitive::CenterLine {
            exposure: copy_expr(&es[0]), width: copy_expr(&es[1]), height: copy_expr(&es[2]), center_x: copy_expr(&es[3]),
            center_y: copy_expr(&es[4]), rotation: copy_expr(&es[5]),
        }))
    } else if code == 4 {
        if n < 2 {
            return Err(error_with("AM outline: need at least 2 params", &[]));
        }
        let points = copy_exprs_from(es, 2);
        Ok(Some(MacroPrimitive::Outline {
            exposure: copy_expr(&es[0]), num_points: copy_expr(&es[1]), points, rotation: copy_expr(&es[n - 1]),
        }))
    } else if code == 5 {
        if n < 6 {
            return Err(error_with("AM polygon: need 6 params", &[]));
        }
        Ok(Some(MacroPrimitive::Polygon {
            exposure: copy_expr(&es[0]), num_vertices: copy_expr(&es[1]), center_x: copy_expr(&es[2]), center_y: copy_expr(&es[3]),
            diameter: copy_expr(&es[4]), rotation: copy_expr(&es[5]),
        }))
    } else if code == 7 {
        if n < 6 {
            return Err(error_with("AM thermal: need 6 params", &[]));
        }
        Ok(Some(MacroPrimitive::Thermal {
            center_x: copy_expr(&es[0]), center_y: copy_expr(&es[1]), outer_diameter: copy_expr(&es[2]),
            inner_diameter: copy_expr(&es[3]), gap_thickness: copy_expr(&es[4]), rotation: copy_expr(&es[5]),
        }))
    } else {
        Ok(None)
    }
}

/// One line of a macro body.
fn parse_macro_line(line: &str) -> (res: Result<Option<MacroPrimitive>, ExtractError>)
    ensures
        outcome_matches(res, line_spec(line@)),
{
    let cs = chars_of(line);
    let t = crate::text::trim_chars(&cs);
    if t.len() == 0 {
        return Ok(None);
    }
    if crate::text::starts_with_str(&t, "0 ") || crate::text::eq_str(&t, "0") {
        return Ok(Some(MacroPrimitive::Comment));
    }
    let parts = split_fields_exec(&t, ',');
    proof {
        lemma_split_nonempty(t@, ',');
    }
    let ghost pv = chars_views(parts@);
    assert(pv[0] == parts@[0]@);
    let code_text = crate::text::trim_chars(&parts[0]);
    let code = match parse_unsigned_exec(&code_text, 0xffff_ffff) {
        Some(c) => c,
        None => return Err(error_with("AM: bad primitive code: ", &parts[0])),
    };
    let rest = slice_vecs(&parts, 1);
    assert(chars_views(rest@) =~= pv.skip(1));
    match parse_exprs(&rest) {
        Err(e) => Err(e),
        Ok(es) => primitive_of(code as u32, &es),
    }
}

/// Copies of the character vectors `v[from..]`.
fn slice_vecs(v: &Vec<Vec<char>>, from: usize) -> (res: Vec<Vec<char>>)
    requires
        from <= v.len(),
    ensures
        chars_views(res@) == chars_views(v@).skip(from as int),
{
    let mut out: Vec<Vec<char>> = Vec::new();
    let mut i = from;
    while i < v.len()
        invariant
            from <= i <= v.len(),
            chars_views(out@) == chars_views(v@).subrange(from as int, i as int),
        decreases v.len() - i,
    {
        let ghost before = out@;
        let c = slice_chars(&v[i], 0, v[i].len());
        assert(c@ =~= v@[i as int]@);
        out.push(c);
        assert(chars_views(out@) =~= chars_views(before).push(v@[i as int]@));
        assert(chars_views(v@).subrange(from as int, i + 1) =~= chars_views(v@).subrange(from as int, i as int).push(v@[i as int]@));
        i += 1;
    }
    assert(chars_views(v@).subrange(from as int, v.len() as int) =~= chars_views(v@).skip(from as int));
    out
}

/// Parses the body lines of an aperture macro into primitives. Each line is
/// a comma-separated list like `5,1,8,0,0,1.08239X$1,22.5`.
pub fn parse_macro_body(lines: &[String]) -> (res: Result<Vec<MacroPrimitive>, ExtractError>)
    ensures
        match body_spec(strings_view(lines@)) {
            Ok(ps) => res matches Ok(v) && Seq::new(v@.len(), |i: int| v@[i]@) == ps,
            Err(m) => res matches Err(ExtractError::ParseError(e)) && e@ == m,
        },
{
    let ghost lv = strings_view(lines@);
    let mut out: Vec<MacroPrimitive> = Vec::new();
    let mut i: usize = 0;
    assert(lv.take(0) =~= seq![]);
    assert(Seq::new(out@.len(), |k: int| out@[k]@) =~= seq![]);
    while i < lines.len()
        invariant
            i <= lines.len(),
            lv == strings_view(lines@),
            body_spec(lv.take(i as int)) == Ok::<Seq<PrimView>, Seq<char>>(Seq::new(out@.len(), |k: int| out@[k]@)),
        decreases lines.len() - i,
    {
        assert(lv.take(i + 1).drop_last() =~= lv.take(i as int));
        assert(lv.take(i + 1).last() == lines@[i as int]@);
        let ghost before = Seq::new(out@.len(), |k: int| out@[k]@);
        match parse_macro_line(lines[i].as_str()) {
            Err(e) => {
                proof {
                    lemma_body_err_extends(lv, i + 1);
                }
                return Err(e);
            },
            Ok(None) => {},
            Ok(Some(p)) => {
                let ghost v = p@;
                out.push(p);
                assert(Seq::new(out@.len(), |k: int| out@[k]@) =~= before.push(v));
            },
        }
        i += 1;
    }
    assert(lv.take(lines.len() as int) =~= lv);
    Ok(out)
}

// ───────────────────────────── macro table ─────────────────────────────

/// An aperture macro definition (from %AM...% blocks).
#[derive(Debug, Clone)]
pub struct ApertureMacro {
    pub name: String,
    pub primitives: Vec<MacroPrimitive>,
}

/// The mathematical content of an [`ApertureMacro`].
pub struct MacroView {
    pub name: Seq<char>,
    pub primitives: Seq<PrimView>,
}

impl View for ApertureMacro {
    type V = MacroView;

    open spec fn view(&self) -> MacroView {
        MacroView { name: self.name@, primitives: Seq::new(self.primitives@.len(), |i: int| self.primitives@[i]@) }
    }
}

/// Table of macro definitions, keyed by name. A later definition of a name
/// replaces the earlier one.
#[derive(Debug)]
pub struct MacroTable {
    macros: Vec<(String, ApertureMacro)>,
}

/// The last macro defined under `k` among the definitions.
pub open spec fn last_definition(defs: Seq<(Seq<char>, MacroView)>, k: Seq<char>) -> Option<MacroView>
    decreases defs.len(),
{
    if defs.len() == 0 {
        None
    } else if defs.last().0 == k {
        Some(defs.last().1)
    } else {
        last_definition(defs.drop_last(), k)
    }
}

impl MacroTable {
    /// The definitions in order.
    closed spec fn definitions(&self) -> Seq<(Seq<char>, MacroView)> {
        Seq::new(self.macros@.len(), |i: int| (self.macros@[i].0@, self.macros@[i].1@))
    }
}

impl View for MacroTable {
    type V = Map<Seq<char>, MacroView>;

    /// The macro defined under each name.
    closed spec fn view(&self) -> Map<Seq<char>, MacroView> {
        Map::new(
            |k: Seq<char>| last_definition(self.definitions(), k) is Some,
            |k: Seq<char>| last_definition(self.definitions(), k)->0,
        )
    }
}

impl Default for MacroTable {
    /// An empty table.
    fn default() -> (res: Self)
        ensures
            res@ == Map::<Seq<char>, MacroView>::empty(),
    {
        let t = MacroTable { macros: Vec::new() };
        assert(t@ =~= Map::<Seq<char>, MacroView>::empty());
        t
    }
}

impl MacroTable {
    /// Defines (or redefines) the macro under a name.
    pub fn define(&mut self, name: String, mac: ApertureMacro)
        ensures
            final(self)@ == old(self)@.insert(name@, mac@),
    {
        let ghost entry = (name@, mac@);
        self.macros.push((name, mac));
        assert(self.definitions() =~= old(self).definitions().push(entry));
        assert(self.definitions().drop_last() =~= old(self).definitions());
        assert(self@ =~= old(self)@.insert(entry.0, entry.1));
    }

    /// The macro defined under a name, if any.
    pub fn get(&self, name: &str) -> (res: Option<&ApertureMacro>)
        ensures
            match res {
                Some(m) => self@.contains_key(name@) && m@ == self@[name@],
                None => !self@.contains_key(name@),
            },
    {
        let target = chars_of(name);
        let ghost defs = self.definitions();
        let mut i: usize = self.macros.len();
        assert(defs.take(i as int) =~= defs);
        while i > 0
            invariant
                i <= self.macros@.len(),
                target@ == name@,
                defs == self.definitions(),
                last_definition(defs, name@) == last_definition(defs.take(i as int), name@),
            decreases i,
        {
            let cs = chars_of(self.macros[i - 1].0.as_str());
            assert(defs.take(i as int).last() == defs[i - 1]);
            assert(defs.take(i as int).drop_last() =~= defs.take(i - 1));
            if crate::text::eq_chars(&cs, &target) {
                return Some(&self.macros[i - 1].1);
            }
            i -= 1;
        }
        None
    }
}

} // verus!
