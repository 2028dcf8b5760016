//! Tile ranges of the level pyramid: the grid of a level, the tiles fetched
//! around a view, and the addresses of tile images.
use vstd::prelude::*;

use crate::text::{decimal, decimal_chars, push_chars, push_str, signed_decimal, signed_decimal_chars, to_string};

verus! {

/// An inclusive range of tile columns `x0..=x1` and rows `y0..=y1` at one
/// pyramid level.
#[derive(Debug, Clone, Copy, PartialEq, Eq, Structural)]
pub struct TileRange {
    pub x0: i64,
    pub y0: i64,
    pub x1: i64,
    pub y1: i64,
}

/// `v` held to `lo..=hi`.
pub open spec fn clamped(v: int, lo: int, hi: int) -> int {
    if v < lo { lo } else if v > hi { hi } else { v }
}

/// Whether every bound of the range is a tile of an `n`-by-`n` grid.
pub open spec fn within_grid(r: TileRange, n: int) -> bool {
    0 <= r.x0 < n && 0 <= r.y0 < n && 0 <= r.x1 < n && 0 <= r.y1 < n
}

/// Tiles per axis at level `z`: `2^z`.
pub fn tiles_per_axis(z: u32) -> (res: u32)
    requires
        z < 32,
    ensures
        res as int == vstd::arithmetic::power2::pow2(z as nat),
{
    proof {
        vstd::bits::lemma_u32_pow2_no_overflow(z as nat);
        vstd::bits::lemma_u32_shl_is_mul(1u32, z);
    }
    1u32 << z
}

fn clamp_index(v: i64, n: i64) -> (res: i64)
    requires
        n >= 1,
    ensures
        res == clamped(v as int, 0, n - 1),
{
    if v < 0 {
        0
    } else if v > n - 1 {
        n - 1
    } else {
        v
    }
}

/// A range of tile indices held to an `n`-by-`n` grid.
pub fn clamp_to_grid(x0: i64, y0: i64, x1: i64, y1: i64, n: i64) -> (res: TileRange)
    requires
        n >= 1,
    ensures
        res == (TileRange {
            x0: clamped(x0 as int, 0, n - 1) as i64,
            y0: clamped(y0 as int, 0, n - 1) as i64,
            x1: clamped(x1 as int, 0, n - 1) as i64,
            y1: clamped(y1 as int, 0, n - 1) as i64,
        }),
        within_grid(res, n as int),
{
    TileRange { x0: clamp_index(x0, n), y0: clamp_index(y0, n), x1: clamp_index(x1, n), y1: clamp_index(y1, n) }
}

/// The tiles fetched for a visible range: one more ring all round, kept
/// inside the grid.
pub fn prefetch_ring(range: TileRange, n: i64) -> (res: TileRange)
    requires
        within_grid(range, n as int),
    ensures
        res.x0 == if range.x0 - 1 > 0 { range.x0 - 1 } else { 0 },
        res.y0 == if range.y0 - 1 > 0 { range.y0 - 1 } else { 0 },
        res.x1 == if range.x1 + 1 < n - 1 { range.x1 + 1 } else { n - 1 },
        res.y1 == if range.y1 + 1 < n - 1 { range.y1 + 1 } else { n - 1 },
{
    TileRange {
        x0: if range.x0 - 1 > 0 { range.x0 - 1 } else { 0 },
        y0: if range.y0 - 1 > 0 { range.y0 - 1 } else { 0 },
        x1: if range.x1 + 1 < n - 1 { range.x1 + 1 } else { n - 1 },
        y1: if range.y1 + 1 < n - 1 { range.y1 + 1 } else { n - 1 },
    }
}

/// The ring around a visible range holds the range and stays inside the
/// grid.
pub proof fn lemma_ring_covers_range(range: TileRange, n: i64, ring: TileRange)
    requires
        within_grid(range, n as int),
        ring.x0 == if range.x0 - 1 > 0 { range.x0 - 1 } else { 0 },
        ring.y0 == if range.y0 - 1 > 0 { range.y0 - 1 } else { 0 },
        ring.x1 == if range.x1 + 1 < n - 1 { range.x1 + 1 } else { n - 1 },
        ring.y1 == if range.y1 + 1 < n - 1 { range.y1 + 1 } else { n - 1 },
    ensures
        within_grid(ring, n as int),
        ring.x0 <= range.x0 && range.x1 <= ring.x1,
        ring.y0 <= range.y0 && range.y1 <= ring.y1,
{
}

/// The address of a tile image: `/g/{id}/tiles/{z}/{tx}/{ty}/{key}.svgz`.
pub fn tile_url(id: &str, z: u32, tx: i64, ty: i64, key: &str) -> (res: String)
    ensures
        res@ == "/g/"@ + id@ + "/tiles/"@ + decimal(z as nat) + "/"@ + signed_decimal(tx as int) + "/"@
            + signed_decimal(ty as int) + "/"@ + key@ + ".svgz"@,
{
    let mut s = to_string("/g/");
    push_str(&mut s, id);
    push_str(&mut s, "/tiles/");
    push_chars(&mut s, &decimal_chars(z as u64));
    push_str(&mut s, "/");
    push_chars(&mut s, &signed_decimal_chars(tx));
    push_str(&mut s, "/");
    push_chars(&mut s, &signed_decimal_chars(ty));
    push_str(&mut s, "/");
    push_str(&mut s, key);
    push_str(&mut s, ".svgz");
    s
}

/// The key under which a loaded tile image is remembered: `{z}:{tx}:{ty}:{key}`.
pub fn tile_load_key(z: u32, tx: i64, ty: i64, key: &str) -> (res: String)
    ensures
        res@ == decimal(z as nat) + ":"@ + signed_decimal(tx as int) + ":"@ + signed_decimal(ty as int) + ":"@ + key@,
{
    let mut s = String::new();
    push_chars(&mut s, &decimal_chars(z as u64));
    push_str(&mut s, ":");
    push_chars(&mut s, &signed_decimal_chars(tx));
    push_str(&mut s, ":");
    push_chars(&mut s, &signed_decimal_chars(ty));
    push_str(&mut s, ":");
    push_str(&mut s, key);
    s
}

} // verus!
