//! Integer helpers of the tile pyramid and its SVG tiles.
use vstd::prelude::*;

use super::tile::WorldBox;
use crate::text::{chars_of, decimal, push_char, push_chars, push_str, signed_decimal, signed_decimal_chars, to_string};

verus! {

/// Tile edge length in pixels.
pub const TILE_PX: u32 = 512;

/// `2^e`.
pub open spec fn pow2(e: nat) -> int
    decreases e,
{
    if e == 0 {
        1
    } else {
        2 * pow2((e - 1) as nat)
    }
}

/// The smallest power of two that is at least `n` (1 for `n <= 1`).
pub open spec fn ceil_pow2_spec(n: int) -> int {
    if n <= 1 {
        1
    } else {
        pow2((choose|e: nat| #[trigger] pow2(e) >= n && (e == 0 || pow2((e - 1) as nat) < n)))
    }
}

/// Powers of two grow.
proof fn lemma_pow2_grows(e: nat)
    ensures
        pow2(e) >= 1,
        pow2(e + 1) == 2 * pow2(e),
        pow2(e) >= e + 1,
    decreases e,
{
    if e > 0 {
        lemma_pow2_grows((e - 1) as nat);
    }
}

/// The smallest power of two that is at least `n`. Larger inputs than
/// `2^62` have no such power in `i64`.
pub fn ceil_pow2(n: i64) -> (res: i64)
    requires
        n <= 0x4000_0000_0000_0000,
    ensures
        res == ceil_pow2_spec(n as int),
{
    let mut p: i64 = 1;
    let ghost mut e: nat = 0;
    while p < n
        invariant
            p == pow2(e),
            n <= 0x4000_0000_0000_0000,
            e == 0 || pow2((e - 1) as nat) < n,
            p <= 0x4000_0000_0000_0000,
        decreases 0x4000_0000_0000_0000 - p,
    {
        proof {
            lemma_pow2_grows(e);
            lemma_pow2_62();
            if e >= 62 {
                lemma_pow2_monotonic(62, e);
            }
            lemma_pow2_monotonic(e + 1, 62);
        }
        p = p * 2;
        proof {
            e = e + 1;
        }
    }
    proof {
        if n > 1 {
            let w = choose|w: nat| #[trigger] pow2(w) >= n && (w == 0 || pow2((w - 1) as nat) < n);
            assert(pow2(e) >= n && (e == 0 || pow2((e - 1) as nat) < n));
            lemma_pow2_unique(w, e, n as int);
        }
    }
    p
}

proof fn lemma_pow2_62()
    ensures
        pow2(62) == 0x4000_0000_0000_0000,
{
    reveal_with_fuel(pow2, 63);
}

/// Only one power of two is at least `n` while its half is below `n`.
proof fn lemma_pow2_unique(a: nat, b: nat, n: int)
    requires
        n > 1,
        pow2(a) >= n && (a == 0 || pow2((a - 1) as nat) < n),
        pow2(b) >= n && (b == 0 || pow2((b - 1) as nat) < n),
    ensures
        a == b,
{
    if a < b {
        lemma_pow2_monotonic(a, (b - 1) as nat);
    } else if b < a {
        lemma_pow2_monotonic(b, (a - 1) as nat);
    }
}

proof fn lemma_pow2_monotonic(a: nat, b: nat)
    requires
        a <= b,
    ensures
        pow2(a) <= pow2(b),
    decreases b,
{
    if a < b {
        lemma_pow2_monotonic(a, (b - 1) as nat);
        lemma_pow2_grows((b - 1) as nat);
    }
}

/// The opening of a tile's SVG: its pixel size and a `viewBox` over the
/// tile's world box with Y flipped.
pub open spec fn tile_open_spec(t: WorldBox) -> Seq<char> {
    "<svg xmlns=\"http://www.w3.org/2000/svg\" width=\"512\" height=\"512\" viewBox=\""@
        + signed_decimal(t.minx as int) + " "@ + signed_decimal(-(t.maxy as int)) + " "@
        + signed_decimal(t.maxx - t.minx) + " "@ + signed_decimal(t.maxy - t.miny)
        + "\"><g transform=\"scale(1,-1)\">"@
}

/// Opens the SVG of a tile.
pub fn tile_open(tile: &WorldBox) -> (res: String)
    requires
        tile.maxy > i64::MIN,
        i64::MIN <= tile.maxx - tile.minx <= i64::MAX,
        i64::MIN <= tile.maxy - tile.miny <= i64::MAX,
    ensures
        res@ == tile_open_spec(*tile),
{
    let vx = tile.minx;
    let vy = -tile.maxy;
    let vw = tile.maxx - tile.minx;
    let vh = tile.maxy - tile.miny;
    let mut s = to_string(
        "<svg xmlns=\"http://www.w3.org/2000/svg\" width=\"512\" height=\"512\" viewBox=\"",
    );
    push_chars(&mut s, &signed_decimal_chars(vx));
    push_str(&mut s, " ");
    push_chars(&mut s, &signed_decimal_chars(vy));
    push_str(&mut s, " ");
    push_chars(&mut s, &signed_decimal_chars(vw));
    push_str(&mut s, " ");
    push_chars(&mut s, &signed_decimal_chars(vh));
    push_str(&mut s, "\"><g transform=\"scale(1,-1)\">");
    s
}

/// The XML text for one character: `&`, `<` and `>` become entities.
pub open spec fn xml_char(c: char) -> Seq<char> {
    if c == '&' {
        "&amp;"@
    } else if c == '<' {
        "&lt;"@
    } else if c == '>' {
        "&gt;"@
    } else {
        seq![c]
    }
}

/// A string with `&`, `<` and `>` replaced by XML entities.
pub open spec fn xml_escape_spec(s: Seq<char>) -> Seq<char>
    decreases s.len(),
{
    if s.len() == 0 {
        Seq::empty()
    } else {
        xml_escape_spec(s.drop_last()) + xml_char(s.last())
    }
}

/// Escapes `&`, `<` and `>` for XML text.
pub fn xml_escape(s: &str) -> (res: String)
    ensures
        res@ == xml_escape_spec(s@),
{
    let cs = chars_of(s);
    let mut out = String::new();
    let mut i: usize = 0;
    while i < cs.len()
        invariant
            i <= cs.len(),
            cs@ == s@,
            out@ == xml_escape_spec(cs@.take(i as int)),
        decreases cs.len() - i,
    {
        let c = cs[i];
        if c == '&' {
            push_str(&mut out, "&amp;");
        } else if c == '<' {
            push_str(&mut out, "&lt;");
        } else if c == '>' {
            push_str(&mut out, "&gt;");
        } else {
            push_char(&mut out, c);
        }
        assert(cs@.take(i + 1).drop_last() == cs@.take(i as int));
        i += 1;
    }
    assert(cs@.take(cs.len() as int) == cs@);
    out
}

} // verus!
