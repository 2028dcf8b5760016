//! The tile manifest's layers and defaults: tile size, layer keys, names and
//! colours.
use vstd::prelude::*;

use crate::text::{chars_of, eq_str, push_char, push_chars, push_str, signed_decimal, signed_decimal_chars, to_string};

verus! {

/// Tile edge in pixels when the manifest names none.
pub fn default_tile_px() -> (res: u32)
    ensures
        res == 512,
{
    512
}

/// FNV-1a hash of a byte string (offset basis `0xcbf29ce484222325`, prime
/// `0x100000001b3`).
pub open spec fn fnv1a(bytes: Seq<u8>) -> u64
    decreases bytes.len(),
{
    if bytes.len() == 0 {
        0xcbf29ce484222325
    } else {
        vstd::wrapping::u64_specs::wrapping_mul(
            fnv1a(bytes.drop_last()) ^ (bytes.last() as u64),
            0x100000001b3,
        )
    }
}

/// The hue, in whole degrees, of a layer key's palette colour.
pub open spec fn key_hue(key: Seq<char>) -> u64 {
    fnv1a(vstd::utf8::encode_utf8(key)) % 360
}

/// The red, green and blue bytes of the colour with hue `h` degrees and
/// saturation and lightness 0.62: the chroma channel is 218, the floor
/// channel 98, and the middle channel rises from 98 by 2 per degree of
/// distance into the 60-degree sector.
pub open spec fn hue_rgb(h: u64) -> (u8, u8, u8) {
    let t = 60 - if h % 120 >= 60 { (h % 120 - 60) as int } else { 60 - (h % 120) as int };
    let x = (98 + 2 * t) as u8;
    let sector = h / 60;
    if sector == 0 {
        (218u8, x, 98u8)
    } else if sector == 1 {
        (x, 218u8, 98u8)
    } else if sector == 2 {
        (98u8, 218u8, x)
    } else if sector == 3 {
        (98u8, x, 218u8)
    } else if sector == 4 {
        (x, 98u8, 218u8)
    } else {
        (218u8, 98u8, x)
    }
}

/// Lower-case hexadecimal digit.
pub open spec fn hex_char(d: u8) -> char {
    if d < 10 {
        (48 + d) as char
    } else {
        (87 + d) as char
    }
}

/// A byte as two lower-case hexadecimal digits (`{:02x}`).
pub open spec fn hex_byte(b: u8) -> Seq<char> {
    seq![hex_char(b / 16), hex_char(b % 16)]
}

/// `#rrggbb` for a colour.
pub open spec fn css_hex(rgb: (u8, u8, u8)) -> Seq<char> {
    "#"@ + hex_byte(rgb.0) + hex_byte(rgb.1) + hex_byte(rgb.2)
}

/// FNV-1a over the bytes of a string.
fn fnv1a_exec(key: &str) -> (res: u64)
    ensures
        res == fnv1a(vstd::utf8::encode_utf8(key@)),
{
    let bytes = key.as_bytes();
    let mut h: u64 = 0xcbf29ce484222325;
    let mut i: usize = 0;
    while i < bytes.len()
        invariant
            i <= bytes.len(),
            bytes@ == vstd::utf8::encode_utf8(key@),
            h == fnv1a(bytes@.take(i as int)),
        decreases bytes.len() - i,
    {
        assert(bytes@.take(i + 1).drop_last() == bytes@.take(i as int));
        h = (h ^ bytes[i] as u64).wrapping_mul(0x100000001b3);
        i += 1;
    }
    assert(bytes@.take(bytes.len() as int) == bytes@);
    h
}

fn hex_char_exec(d: u8) -> (c: char)
    requires
        d < 16,
    ensures
        c == hex_char(d),
{
    if d < 10 {
        (48 + d) as char
    } else {
        (87 + d) as char
    }
}

fn push_hex_byte(s: &mut String, b: u8)
    ensures
        final(s)@ == old(s)@ + hex_byte(b),
{
    push_char(s, hex_char_exec(b / 16));
    push_char(s, hex_char_exec(b % 16));
}

/// The colour at hue `h` (in degrees, below 360).
fn hue_rgb_exec(h: u64) -> (res: (u8, u8, u8))
    requires
        h < 360,
    ensures
        res == hue_rgb(h),
{
    let m = h % 120;
    let t: u64 = if m >= 60 { 120 - m } else { m };
    let x = (98 + 2 * t) as u8;
    let sector = h / 60;
    if sector == 0 {
        (218, x, 98)
    } else if sector == 1 {
        (x, 218, 98)
    } else if sector == 2 {
        (98, 218, x)
    } else if sector == 3 {
        (98, x, 218)
    } else if sector == 4 {
        (x, 98, 218)
    } else {
        (218, 98, x)
    }
}

/// Deterministic palette: the layer key's FNV-1a hash picks a hue, at fixed
/// saturation and lightness.
pub fn palette_color(key: &str) -> (res: String)
    ensures
        res@ == css_hex(hue_rgb(key_hue(key@))),
{
    let h = fnv1a_exec(key);
    let (r, g, b) = hue_rgb_exec(h % 360);
    let mut s = to_string("#");
    push_hex_byte(&mut s, r);
    push_hex_byte(&mut s, g);
    push_hex_byte(&mut s, b);
    s
}

// ───────────────────────────── layers ─────────────────────────────

/// Key of the synthetic level-of-detail overlay layer.
pub open spec fn lod_key() -> Seq<char> {
    "__lod"@
}

/// A layer of a tile set as the manifest lists it.
#[derive(Clone, Debug)]
pub struct Layer {
    pub key: String,
    pub layer: i64,
    pub datatype: i64,
    pub name: Option<String>,
    pub count: u64,
    pub default_color: Option<String>,
    pub default_order: Option<i64>,
}

impl Layer {
    /// True for the synthetic level-of-detail overlay layer.
    pub fn is_lod(&self) -> (res: bool)
        ensures
            res == (self.key@ == lod_key()),
    {
        let cs = chars_of(self.key.as_str());
        eq_str(&cs, "__lod")
    }

    /// Tile-URL key: `"{layer}_{datatype}"` for real layers, `"__lod"` for the
    /// overlay. The manifest's `key` uses a slash (`"10/0"`) for display.
    pub fn tile_key(&self) -> (res: String)
        ensures
            res@ == (if self.key@ == lod_key() {
                lod_key()
            } else {
                signed_decimal(self.layer as int) + "_"@ + signed_decimal(self.datatype as int)
            }),
    {
        if self.is_lod() {
            to_string("__lod")
        } else {
            let mut s = String::new();
            push_chars(&mut s, &signed_decimal_chars(self.layer));
            push_str(&mut s, "_");
            push_chars(&mut s, &signed_decimal_chars(self.datatype));
            s
        }
    }

    /// Display name: manifest name if present, else `L{layer}/{datatype}`.
    pub fn display_name(&self) -> (res: String)
        ensures
            res@ == (match self.name {
                Some(n) if n@.len() > 0 => n@,
                _ => if self.key@ == lod_key() {
                    "omitted (LOD)"@
                } else {
                    "L"@ + signed_decimal(self.layer as int) + "/"@ + signed_decimal(self.datatype as int)
                },
            }),
    {
        match &self.name {
            Some(n) => {
                if chars_of(n.as_str()).len() > 0 {
                    return n.clone();
                }
            },
            None => {},
        }
        if self.is_lod() {
            to_string("omitted (LOD)")
        } else {
            let mut s = to_string("L");
            push_chars(&mut s, &signed_decimal_chars(self.layer));
            push_str(&mut s, "/");
            push_chars(&mut s, &signed_decimal_chars(self.datatype));
            s
        }
    }

    /// Color: manifest default if present, else a deterministic palette colour
    /// derived from the key's hash.
    pub fn default_color(&self) -> (res: String)
        ensures
            res@ == (match self.default_color {
                Some(c) if c@.len() > 0 => c@,
                _ => css_hex(hue_rgb(key_hue(self.key@))),
            }),
    {
        match &self.default_color {
            Some(c) => {
                if chars_of(c.as_str()).len() > 0 {
                    return c.clone();
                }
            },
            None => {},
        }
        palette_color(self.key.as_str())
    }
}

} // verus!
