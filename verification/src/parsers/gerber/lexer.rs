//! Splits Gerber text into word commands (terminated by `*`) and extended
//! commands (between `%` delimiters), dropping `G04` comments.
use vstd::prelude::*;

use vstd::seq_lib::lemma_concat_associative;
use crate::text::{chars_of, is_whitespace, starts_with, starts_with_str, string_from_chars, trim, trim_chars};

verus! {

/// Tokens produced by the Gerber lexer.
#[derive(Debug, Clone, PartialEq)]
pub enum GerberToken {
    /// Extended command block (contents between `%` delimiters).
    /// Example: `"FSLAX24Y24"`, `"ADD10C,0.020"`, `"LPD"`
    Extended(String),
    /// A word command terminated by `*`.
    /// Example: `"D10"`, `"X100Y200D01"`, `"G01"`, `"M02"`
    Word(String),
}

/// Mathematical value of a [`GerberToken`].
pub enum TokenView {
    Extended(Seq<char>),
    Word(Seq<char>),
}

impl View for GerberToken {
    type V = TokenView;

    open spec fn view(&self) -> TokenView {
        match self {
            GerberToken::Extended(s) => TokenView::Extended(s@),
            GerberToken::Word(s) => TokenView::Word(s@),
        }
    }
}

pub open spec fn token_views(ts: Seq<GerberToken>) -> Seq<TokenView> {
    ts.map_values(|t: GerberToken| t@)
}

/// What the lexer is in the middle of reading.
pub enum LexMode {
    /// Between commands.
    Between,
    /// Inside a `%...%` block.
    Block,
    /// Inside a word command.
    Word,
}

/// A `G04` (or `G4`) comment.
pub open spec fn is_comment_spec(s: Seq<char>) -> bool {
    starts_with(s, "G04"@) || starts_with(s, "G4"@)
}

/// The token a finished block or word yields: its trimmed text, unless that
/// is empty or a comment.
pub open spec fn emit(extended: bool, buf: Seq<char>) -> Seq<TokenView> {
    let t = trim(buf);
    if t.len() > 0 && !is_comment_spec(t) {
        if extended {
            seq![TokenView::Extended(t)]
        } else {
            seq![TokenView::Word(t)]
        }
    } else {
        seq![]
    }
}

pub open spec fn is_line_break(c: char) -> bool {
    c == '\n' || c == '\r'
}

pub open spec fn mode_rank(mode: LexMode) -> int {
    match mode {
        LexMode::Word => 1,
        _ => 0,
    }
}

/// Tokens of the rest `s` of the input, given the current mode and the text
/// read so far for the current block or word.
pub open spec fn lex(mode: LexMode, buf: Seq<char>, s: Seq<char>) -> Seq<TokenView>
    decreases s.len(), mode_rank(mode),
{
    if s.len() == 0 {
        match mode {
            LexMode::Word => emit(false, buf),
            // End of input inside an extended block drops the block.
            _ => seq![],
        }
    } else {
        let c = s[0];
        let rest = s.drop_first();
        match mode {
            LexMode::Between => if c == '%' {
                lex(LexMode::Block, seq![], rest)
            } else if c == '\n' || c == '\r' || c == ' ' || c == '\t' {
                lex(LexMode::Between, seq![], rest)
            } else if c == '*' {
                lex(LexMode::Between, seq![], rest)
            } else {
                lex(LexMode::Word, seq![c], rest)
            },
            LexMode::Block => if c == '%' {
                emit(true, buf) + lex(LexMode::Between, seq![], rest)
            } else if c == '*' {
                emit(true, buf) + lex(LexMode::Block, seq![], rest)
            } else if is_line_break(c) {
                lex(LexMode::Block, buf, rest)
            } else {
                lex(LexMode::Block, buf.push(c), rest)
            },
            LexMode::Word => if c == '*' {
                emit(false, buf) + lex(LexMode::Between, seq![], rest)
            } else if c == '%' {
                // The `%` is left for the next command.
                emit(false, buf) + lex(LexMode::Between, seq![], s)
            } else if is_line_break(c) {
                lex(LexMode::Word, buf, rest)
            } else {
                lex(LexMode::Word, buf.push(c), rest)
            },
        }
    }
}

/// The tokens of a whole Gerber text.
pub open spec fn tokenize_spec(input: Seq<char>) -> Seq<TokenView> {
    lex(LexMode::Between, seq![], input)
}

/// Check if a command is a G04 comment.
fn is_comment(s: &[char]) -> (res: bool)
    ensures
        res == is_comment_spec(s@),
{
    starts_with_str(s, "G04") || starts_with_str(s, "G4")
}

/// Appends the token of a finished block or word, if it yields one.
fn push_token(tokens: &mut Vec<GerberToken>, extended: bool, buf: &[char])
    ensures
        token_views(final(tokens)@) == token_views(old(tokens)@) + emit(extended, buf@),
{
    let t = trim_chars(buf);
    if t.len() > 0 && !is_comment(&t) {
        let s = string_from_chars(&t);
        let tok = if extended { GerberToken::Extended(s) } else { GerberToken::Word(s) };
        tokens.push(tok);
        assert(token_views(tokens@) =~= token_views(old(tokens)@) + emit(extended, buf@));
    } else {
        assert(token_views(tokens@) =~= token_views(old(tokens)@) + emit(extended, buf@));
    }
}

/// Tokenize a Gerber file into a sequence of tokens.
///
/// Gerber uses `*` as a statement terminator and `%...*%` for extended commands.
/// Comments start with `G04` and end with `*`.
pub fn tokenize(input: &str) -> (res: Vec<GerberToken>)
    ensures
        token_views(res@) == tokenize_spec(input@),
{
    let s = chars_of(input);
    let mut tokens: Vec<GerberToken> = Vec::new();
    let mut mode = LexMode::Between;
    let mut buf: Vec<char> = Vec::new();
    let mut i: usize = 0;
    assert(s@.skip(0) =~= s@);
    assert(token_views(tokens@) =~= seq![]);
    while i < s.len()
        invariant
            i <= s.len(),
            token_views(tokens@) + lex(mode, buf@, s@.skip(i as int)) == tokenize_spec(s@),
            s@ == input@,
        decreases (s.len() - i) * 2 + mode_rank(mode),
    {
        let c = s[i];
        let ghost rest = s@.skip(i as int);
        let ghost tv = token_views(tokens@);
        let ghost ob = buf@;
        assert(rest[0] == c);
        assert(rest.drop_first() =~= s@.skip(i + 1));
        match mode {
            LexMode::Between => {
                if c == '%' {
                    mode = LexMode::Block;
                    buf = Vec::new();
                } else if c == '\n' || c == '\r' || c == ' ' || c == '\t' || c == '*' {
                    buf = Vec::new();
                } else {
                    mode = LexMode::Word;
                    buf = Vec::new();
                    buf.push(c);
                    assert(buf@ =~= seq![c]);
                }
                i += 1;
            },
            LexMode::Block => {
                if c == '%' {
                    push_token(&mut tokens, true, &buf);
                    mode = LexMode::Between;
                    buf = Vec::new();
                    proof { lemma_concat_associative(tv, emit(true, ob), lex(mode, buf@, s@.skip(i + 1))); }
                } else if c == '*' {
                    push_token(&mut tokens, true, &buf);
                    buf = Vec::new();
                    proof { lemma_concat_associative(tv, emit(true, ob), lex(mode, buf@, s@.skip(i + 1))); }
                } else if c == '\n' || c == '\r' {
                } else {
                    buf.push(c);
                }
                i += 1;
            },
            LexMode::Word => {
                if c == '*' {
                    push_token(&mut tokens, false, &buf);
                    mode = LexMode::Between;
                    buf = Vec::new();
                    proof { lemma_concat_associative(tv, emit(false, ob), lex(mode, buf@, s@.skip(i + 1))); }
                    i += 1;
                } else if c == '%' {
                    push_token(&mut tokens, false, &buf);
                    mode = LexMode::Between;
                    buf = Vec::new();
                    proof { lemma_concat_associative(tv, emit(false, ob), lex(mode, buf@, s@.skip(i as int))); }
                } else if c == '\n' || c == '\r' {
                    i += 1;
                } else {
                    buf.push(c);
                    i += 1;
                }
            },
        }
    }
    assert(s@.skip(i as int) =~= Seq::<char>::empty());
    match mode {
        LexMode::Word => {
            push_token(&mut tokens, false, &buf);
        },
        _ => {
            assert(token_views(tokens@) + Seq::<TokenView>::empty() =~= token_views(tokens@));
        },
    }
    tokens
}

} // verus!
