//! Altium binary records whose geometry the board is drawn from: arcs, pads
//! and texts, and the component records of the text streams. Angles stay the
//! raw bits of their little-endian 64-bit floats.
use vstd::prelude::*;

use crate::bytes::{le_u32, le_u32_spec};
use crate::text::{chars_of, from_utf8_lossy, slice_bytes, slice_chars, string_from_chars, utf8_lossy};
use std::collections::HashMap;
use super::{
    is_kind, is_kind_exec, layer_id_spec, parse_layer_id, prop_get, props_view, record_get, records_view, PropV,
    TextRecord, i32_at, lemma_long_bodies_push, long_bodies, parse_subrecords, read_i32, read_u16, read_u8, subrecords,
    subrecords_view, u16_at,
};

verus! {

// ───────────────────────────── raw fields ─────────────────────────────

/// The little-endian u32 at byte `o`.
pub open spec fn u32_at(s: Seq<u8>, o: int) -> int {
    le_u32_spec(s[o], s[o + 1], s[o + 2], s[o + 3])
}

/// The little-endian u64 at byte `o`.
pub open spec fn u64_at(s: Seq<u8>, o: int) -> int {
    u32_at(s, o) + 4294967296 * u32_at(s, o + 4)
}

/// The little-endian u32 at `offset`, or 0 past the end.
pub fn read_u32_le(data: &[u8], offset: usize) -> (res: u32)
    ensures
        offset + 4 <= data@.len() ==> res as int == u32_at(data@, offset as int),
        offset + 4 > data@.len() ==> res == 0,
{
    if offset > data.len() || data.len() - offset < 4 {
        return 0;
    }
    le_u32(data[offset], data[offset + 1], data[offset + 2], data[offset + 3])
}

/// The bits of the little-endian 64-bit float at `offset`, or 0 (the bits
/// of 0.0) past the end.
pub fn read_f64_bits(data: &[u8], offset: usize) -> (res: u64)
    ensures
        offset + 8 <= data@.len() ==> res as int == u64_at(data@, offset as int),
        offset + 8 > data@.len() ==> res == 0,
{
    if offset > data.len() || data.len() - offset < 8 {
        return 0;
    }
    let lo = read_u32_le(data, offset) as u64;
    let hi = read_u32_le(data, offset + 4) as u64;
    assert(hi * 4294967296 <= 0xffff_ffff_0000_0000) by (nonlinear_arith)
        requires
            hi <= 0xffff_ffff,
    ;
    hi * 4294967296 + lo
}

// ───────────────────────────── arcs ─────────────────────────────

#[derive(Debug, Clone, PartialEq)]
pub struct AltiumArc {
    pub layer: u8,
    pub net_id: u16,
    pub component_id: u16,
    pub center_x: i32,
    pub center_y: i32,
    pub radius: i32,
    /// Bits of the start angle in degrees (a 64-bit float).
    pub start_angle: u64,
    /// Bits of the end angle in degrees (a 64-bit float).
    pub end_angle: u64,
    pub width: i32,
}

/// The arc a sub-record of at least 45 bytes describes.
pub open spec fn arc_of(s: Seq<u8>, a: AltiumArc) -> bool {
    a.layer == s[0] && a.net_id as int == u16_at(s, 3) && a.component_id as int == u16_at(s, 7)
        && a.center_x as int == i32_at(s, 13) && a.center_y as int == i32_at(s, 17)
        && a.radius as int == i32_at(s, 21) && a.start_angle as int == u64_at(s, 25)
        && a.end_angle as int == u64_at(s, 33) && a.width as int == i32_at(s, 41)
}

/// The arcs of an arc stream: each sub-record of at least 45 bytes, in order.
pub fn parse_arcs(data: &[u8]) -> (res: Vec<AltiumArc>)
    ensures
        res@.len() == long_bodies(subrecords(data@, 0), 45).len(),
        forall|i: int| 0 <= i < res@.len() ==> arc_of(long_bodies(subrecords(data@, 0), 45)[i], #[trigger] res@[i]),
{
    let subs = parse_subrecords(data);
    let ghost sv = subrecords_view(subs@);
    let mut out: Vec<AltiumArc> = Vec::new();
    let mut i: usize = 0;
    assert(sv.take(0) =~= Seq::<(u8, Seq<u8>)>::empty());
    assert(long_bodies(sv.take(0), 45) =~= Seq::<Seq<u8>>::empty()) by { reveal_with_fuel(Seq::filter, 1); }
    while i < subs.len()
        invariant
            i <= subs@.len(),
            sv == subrecords_view(subs@),
            out@.len() == long_bodies(sv.take(i as int), 45).len(),
            forall|k: int| 0 <= k < out@.len() ==> arc_of(long_bodies(sv.take(i as int), 45)[k], #[trigger] out@[k]),
        decreases subs.len() - i,
    {
        let sr = &subs[i].1;
        proof {
            assert(sv.take(i + 1) =~= sv.take(i as int).push(sv[i as int]));
            lemma_long_bodies_push(sv.take(i as int), sv[i as int], 45);
        }
        if sr.len() >= 45 {
            let a = AltiumArc {
                layer: read_u8(sr, 0),
                net_id: read_u16(sr, 3),
                component_id: read_u16(sr, 7),
                center_x: read_i32(sr, 13),
                center_y: read_i32(sr, 17),
                radius: read_i32(sr, 21),
                start_angle: read_f64_bits(sr, 25),
                end_angle: read_f64_bits(sr, 33),
                width: read_i32(sr, 41),
            };
            out.push(a);
        }
        i += 1;
    }
    assert(sv.take(subs.len() as int) =~= sv);
    out
}

// ───────────────────────────── length-prefixed chunks ─────────────────────────────

/// Whether the byte after a chunk starts the next pad (`0x02`) or the next
/// text (`0x04` or `0x05`).
pub open spec fn chunk_stop(pads: bool, b: u8) -> bool {
    if pads { b == 2 } else { b == 4 || b == 5 }
}

/// Reads the length-prefixed chunks (a little-endian u32 length, then the
/// bytes) from `off` on: the last chunk of at least `min` bytes is the
/// geometry. The scan stops at the end of the data, at a length over
/// 100000, at a chunk that overruns the data (just after its length), or
/// before a byte that starts the next record. Gives the offset where it
/// stopped and the geometry.
pub open spec fn chunk_scan(d: Seq<u8>, off: int, geom: Option<Seq<u8>>, min: int, pads: bool) -> (int, Option<Seq<u8>>)
    decreases d.len() - off,
{
    if off < 0 || off + 4 > d.len() {
        (off, geom)
    } else {
        let cl = u32_at(d, off);
        if cl > 100000 {
            (off, geom)
        } else {
            let o = off + 4;
            if o + cl > d.len() {
                (o, geom)
            } else {
                let g2 = if cl >= min { Some(d.subrange(o, o + cl)) } else { geom };
                let o2 = o + cl;
                if o2 < d.len() && chunk_stop(pads, d[o2]) {
                    (o2, g2)
                } else {
                    chunk_scan(d, o2, g2, min, pads)
                }
            }
        }
    }
}

pub proof fn lemma_chunk_scan(d: Seq<u8>, off: int, geom: Option<Seq<u8>>, min: int, pads: bool)
    requires
        0 <= off <= d.len(),
    ensures
        off <= chunk_scan(d, off, geom, min, pads).0 <= d.len(),
        (chunk_scan(d, off, geom, min, pads).1 matches Some(g) ==> (g.len() >= min || geom == Some(g))),
    decreases d.len() - off,
{
    if off + 4 <= d.len() {
        let cl = u32_at(d, off);
        if cl <= 100000 && off + 4 + cl <= d.len() {
            let o2 = off + 4 + cl;
            let g2 = if cl >= min { Some(d.subrange(off + 4, o2)) } else { geom };
            if !(o2 < d.len() && chunk_stop(pads, d[o2])) {
                lemma_chunk_scan(d, o2, g2, min, pads);
            }
        }
    }
}

/// The view of an optional byte vector.
pub open spec fn opt_bytes_view(o: Option<Vec<u8>>) -> Option<Seq<u8>> {
    match o {
        Some(v) => Some(v@),
        None => None,
    }
}

/// Reads the chunks from `start` on (see [`chunk_scan`]).
fn scan_chunks(data: &[u8], start: usize, min: usize, pads: bool) -> (res: (usize, Option<Vec<u8>>))
    requires
        start <= data.len(),
    ensures
        (res.0 as int, opt_bytes_view(res.1)) == chunk_scan(data@, start as int, None, min as int, pads),
{
    let mut offset = start;
    let mut geometry: Option<Vec<u8>> = None;
    loop
        invariant
            start <= offset <= data.len(),
            chunk_scan(data@, start as int, None, min as int, pads)
                == chunk_scan(data@, offset as int, opt_bytes_view(geometry), min as int, pads),
        decreases data.len() - offset,
    {
        if data.len() - offset < 4 {
            return (offset, geometry);
        }
        let chunk_len = read_u32_le(data, offset) as usize;
        if chunk_len > 100_000 {
            return (offset, geometry);
        }
        offset = offset + 4;
        if chunk_len > data.len() - offset {
            return (offset, geometry);
        }
        if chunk_len >= min {
            geometry = Some(slice_bytes(data, offset, offset + chunk_len));
        }
        offset = offset + chunk_len;
        if offset < data.len() && (if pads { data[offset] == 2 } else { data[offset] == 4 || data[offset] == 5 }) {
            return (offset, geometry);
        }
    }
}

/// Text up to its trailing NULs (`trim_end_matches('\0')`).
pub open spec fn trim_end_nul(s: Seq<char>) -> Seq<char>
    decreases s.len(),
{
    if s.len() > 0 && s.last() == '\0' {
        trim_end_nul(s.drop_last())
    } else {
        s
    }
}

/// The lossy UTF-8 text of bytes without its trailing NULs.
fn lossy_text(b: &[u8]) -> (res: String)
    ensures
        res@ == trim_end_nul(utf8_lossy(b@)),
{
    let s = from_utf8_lossy(b);
    let cs = chars_of(s.as_str());
    let mut end = cs.len();
    assert(cs@.take(cs.len() as int) =~= cs@);
    while end > 0 && cs[end - 1] == '\0'
        invariant
            end <= cs.len(),
            trim_end_nul(cs@) == trim_end_nul(cs@.take(end as int)),
        decreases end,
    {
        assert(cs@.take(end as int).drop_last() =~= cs@.take(end - 1));
        end -= 1;
    }
    proof {
        if end > 0 {
            assert(cs@.take(end as int).last() == cs@[end - 1]);
        }
        assert(trim_end_nul(cs@.take(end as int)) == cs@.take(end as int));
    }
    let t = slice_chars(&cs, 0, end);
    string_from_chars(&t)
}

// ───────────────────────────── pads ─────────────────────────────

#[derive(Debug, Clone, PartialEq)]
pub struct AltiumPad {
    pub name: String,
    pub layer: u8,
    pub net_id: u16,
    pub component_id: u16,
    pub x: i32,
    pub y: i32,
    pub size_x: i32,
    pub size_y: i32,
    pub hole_size: i32,
    pub shape: u8,
    /// Bits of the rotation in degrees (a 64-bit float).
    pub rotation: u64,
}

/// The name of a PCB 6.0 pad: a length byte and that many bytes (within the
/// sub-record), or the single byte of a one-byte sub-record.
pub open spec fn pad_name_v6(d: Seq<u8>, o: int, la: int) -> Seq<char> {
    if la > 1 {
        let nl = d[o] as int;
        let n = if nl < la - 1 { nl } else { la - 1 };
        utf8_lossy(d.subrange(o + 1, o + 1 + n))
    } else if la == 1 {
        utf8_lossy(d.subrange(o, o + 1))
    } else {
        seq![]
    }
}

/// The pads of a PCB 6.0 pad stream from `off` on, each its name and its
/// geometry chunk: a name sub-record (type byte, u32 length, bytes), a
/// flags sub-record, then length-prefixed chunks; a pad is kept when its
/// geometry has at least 60 bytes. Reading stops where the data runs out.
pub open spec fn pads_v6(d: Seq<u8>, off: int) -> Seq<(Seq<char>, Seq<u8>)>
    decreases d.len() - off,
{
    if off < 0 || !(off + 12 < d.len()) {
        seq![]
    } else {
        let la = u32_at(d, off + 1);
        let o1 = off + 5;
        if o1 + la > d.len() {
            seq![]
        } else {
            let name = pad_name_v6(d, o1, la);
            let o2 = o1 + la;
            if o2 + 5 > d.len() {
                seq![]
            } else {
                let lb = u32_at(d, o2 + 1);
                let o3 = o2 + 5;
                if o3 + lb > d.len() {
                    seq![]
                } else {
                    let sc = chunk_scan(d, o3 + lb, None, 60, true);
                    proof {
                        lemma_chunk_scan(d, o3 + lb, None, 60, true);
                    }
                    let rest = pads_v6(d, sc.0);
                    match sc.1 {
                        Some(g) => if g.len() >= 60 { seq![(name, g)] + rest } else { rest },
                        None => rest,
                    }
                }
            }
        }
    }
}

/// The pad a PCB 6.0 geometry chunk (at least 60 bytes) describes.
pub open spec fn pad_of_v6(name: Seq<char>, g: Seq<u8>, p: AltiumPad) -> bool {
    p.name@ == name && p.layer == g[0] && p.net_id as int == u16_at(g, 3) && p.component_id as int == u16_at(g, 7)
        && p.x as int == i32_at(g, 13) && p.y as int == i32_at(g, 17) && p.size_x as int == i32_at(g, 21)
        && p.size_y as int == i32_at(g, 25) && p.hole_size as int == i32_at(g, 45) && p.shape == g[49]
        && p.rotation as int == u64_at(g, 52)
}

/// The name of a pad from a PCB 6.0 name sub-record.
fn pad_name_exec(data: &[u8], o: usize, la: usize) -> (res: String)
    requires
        o + la <= data.len(),
    ensures
        res@ == pad_name_v6(data@, o as int, la as int),
{
    if la > 1 {
        let nl = data[o] as usize;
        let n = if nl < la - 1 { nl } else { la - 1 };
        let b = slice_bytes(data, o + 1, o + 1 + n);
        from_utf8_lossy(&b)
    } else if la == 1 {
        let b = slice_bytes(data, o, o + 1);
        from_utf8_lossy(&b)
    } else {
        let s = String::new();
        assert(s@ =~= seq![]);
        s
    }
}

/// The pad a PCB 6.0 geometry chunk describes.
fn pad_from_v6(name: String, g: &[u8]) -> (res: AltiumPad)
    requires
        g.len() >= 60,
    ensures
        pad_of_v6(name@, g@, res),
{
    AltiumPad {
        name,
        layer: read_u8(g, 0),
        net_id: read_u16(g, 3),
        component_id: read_u16(g, 7),
        x: read_i32(g, 13),
        y: read_i32(g, 17),
        size_x: read_i32(g, 21),
        size_y: read_i32(g, 25),
        hole_size: read_i32(g, 45),
        shape: read_u8(g, 49),
        rotation: read_f64_bits(g, 52),
    }
}

/// Parses pads from a PCB 6.0 pad stream, where the geometry comes in
/// length-only prefixed chunks after the initial type+length sub-records.
fn parse_pads_v6(data: &[u8]) -> (res: Vec<AltiumPad>)
    ensures
        res@.len() == pads_v6(data@, 0).len(),
        forall|i: int| 0 <= i < res@.len() ==> pad_of_v6(pads_v6(data@, 0)[i].0, pads_v6(data@, 0)[i].1, #[trigger] res@[i]),
{
    let ghost d = data@;
    let mut pads: Vec<AltiumPad> = Vec::new();
    let ghost mut done: Seq<(Seq<char>, Seq<u8>)> = seq![];
    let mut offset: usize = 0;
    assert(done + pads_v6(d, 0) =~= pads_v6(d, 0));
    while offset < data.len() && data.len() - offset > 12
        invariant
            offset <= data.len(),
            d == data@,
            pads_v6(d, 0) == done + pads_v6(d, offset as int),
            pads@.len() == done.len(),
            forall|i: int| 0 <= i < pads@.len() ==> pad_of_v6(done[i].0, done[i].1, #[trigger] pads@[i]),
        decreases data.len() - offset,
    {
        let la = read_u32_le(data, offset + 1) as usize;
        let o1 = offset + 5;
        if la > data.len() - o1 {
            assert(done + pads_v6(d, offset as int) =~= done);
            return pads;
        }
        let name = pad_name_exec(data, o1, la);
        let o2 = o1 + la;
        if data.len() - o2 < 5 {
            assert(done + pads_v6(d, offset as int) =~= done);
            return pads;
        }
        let lb = read_u32_le(data, o2 + 1) as usize;
        let o3 = o2 + 5;
        if lb > data.len() - o3 {
            assert(done + pads_v6(d, offset as int) =~= done);
            return pads;
        }
        let (o4, geometry) = scan_chunks(data, o3 + lb, 60, true);
        proof {
            lemma_chunk_scan(d, (o3 + lb) as int, None, 60, true);
        }
        match geometry {
            Some(g) => {
                if g.len() >= 60 {
                    let ghost entry = (name@, g@);
                    let p = pad_from_v6(name, &g);
                    pads.push(p);
                    proof {
                        assert(done.push(entry) + pads_v6(d, o4 as int) =~= done + (seq![entry] + pads_v6(d, o4 as int)));
                        done = done.push(entry);
                    }
                }
            },
            None => {},
        }
        offset = o4;
    }
    assert(pads_v6(d, offset as int) =~= seq![]);
    assert(done + seq![] =~= done);
    pads
}

/// The pads of an older pad stream, each its name and geometry sub-record:
/// a name sub-record (text up to trailing NULs), then the geometry; a
/// geometry under 70 bytes is skipped with a short (under 33 bytes)
/// sub-record after it; a kept pad skips a following sub-record whose tag
/// differs from the first sub-record's.
pub open spec fn pads_legacy(subs: Seq<(u8, Seq<u8>)>, i: int) -> Seq<(Seq<char>, Seq<u8>)>
    decreases subs.len() - i,
{
    if i < 0 || i >= subs.len() {
        seq![]
    } else {
        let name = trim_end_nul(utf8_lossy(subs[i].1));
        let j = i + 1;
        if j >= subs.len() {
            seq![]
        } else {
            let geom = subs[j].1;
            let k = j + 1;
            if geom.len() < 70 {
                pads_legacy(subs, if k < subs.len() && subs[k].1.len() < 33 { k + 1 } else { k })
            } else {
                seq![(name, geom)] + pads_legacy(subs, if k < subs.len() && subs[k].0 != subs[0].0 { k + 1 } else { k })
            }
        }
    }
}

/// The pad an older geometry sub-record (at least 70 bytes) describes.
pub open spec fn pad_of_legacy(name: Seq<char>, g: Seq<u8>, p: AltiumPad) -> bool {
    p.name@ == name && p.layer == g[0] && p.net_id as int == u16_at(g, 7) && p.component_id as int == u16_at(g, 13)
        && p.x as int == i32_at(g, 23) && p.y as int == i32_at(g, 27) && p.size_x as int == i32_at(g, 31)
        && p.size_y as int == i32_at(g, 35) && p.hole_size as int == i32_at(g, 55) && p.shape == g[59]
        && p.rotation as int == u64_at(g, 62)
}

/// Parses pads from an older stream of type+length sub-records.
fn parse_pads_legacy(data: &[u8]) -> (res: Vec<AltiumPad>)
    ensures
        ({
            let ps = pads_legacy(subrecords(data@, 0), 0);
            &&& res@.len() == ps.len()
            &&& forall|i: int| 0 <= i < res@.len() ==> pad_of_legacy(ps[i].0, ps[i].1, #[trigger] res@[i])
        }),
{
    let subs = parse_subrecords(data);
    let ghost sv = subrecords_view(subs@);
    assert(sv == subrecords(data@, 0));
    let n = subs.len();
    let mut pads: Vec<AltiumPad> = Vec::new();
    let ghost mut done: Seq<(Seq<char>, Seq<u8>)> = seq![];
    let mut i: usize = 0;
    assert(done + pads_legacy(sv, 0) =~= pads_legacy(sv, 0));
    while i < n
        invariant
            i <= n,
            n == subs@.len(),
            sv == subrecords_view(subs@),
            sv == subrecords(data@, 0),
            pads_legacy(sv, 0) == done + pads_legacy(sv, i as int),
            pads@.len() == done.len(),
            forall|k: int| 0 <= k < pads@.len() ==> pad_of_legacy(done[k].0, done[k].1, #[trigger] pads@[k]),
        decreases n - i,
    {
        assert(sv[i as int] == (subs@[i as int].0, subs@[i as int].1@));
        let name = lossy_text(&subs[i].1);
        i += 1;
        if i >= n {
            assert(pads_legacy(sv, i - 1) =~= seq![]);
            assert(done + pads_legacy(sv, i - 1) =~= done);
            return pads;
        }
        assert(sv[i as int] == (subs@[i as int].0, subs@[i as int].1@));
        let geom = &subs[i].1;
        i += 1;
        if i < n {
            assert(sv[i as int] == (subs@[i as int].0, subs@[i as int].1@));
        }
        assert(sv[0] == (subs@[0].0, subs@[0].1@));
        if geom.len() < 70 {
            if i < n && subs[i].1.len() < 33 {
                i += 1;
            }
        } else {
            let ghost entry = (name@, geom@);
            let p = AltiumPad {
                name,
                layer: read_u8(geom, 0),
                net_id: read_u16(geom, 7),
                component_id: read_u16(geom, 13),
                x: read_i32(geom, 23),
                y: read_i32(geom, 27),
                size_x: read_i32(geom, 31),
                size_y: read_i32(geom, 35),
                hole_size: read_i32(geom, 55),
                shape: read_u8(geom, 59),
                rotation: read_f64_bits(geom, 62),
            };
            if i < n && subs[i].0 != subs[0].0 {
                i += 1;
            }
            pads.push(p);
            proof {
                assert(done.push(entry) + pads_legacy(sv, i as int) =~= done + (seq![entry] + pads_legacy(sv, i as int)));
                done = done.push(entry);
            }
        }
    }
    assert(pads_legacy(sv, i as int) =~= seq![]);
    assert(done + seq![] =~= done);
    pads
}

/// A pad as the dispatcher reads it: the PCB 6.0 layout or the older one.
pub open spec fn pads_spec(data: Seq<u8>, use_fine_scale: bool) -> Seq<(Seq<char>, Seq<u8>)> {
    if use_fine_scale { pads_v6(data, 0) } else { pads_legacy(subrecords(data, 0), 0) }
}

/// Parses the pads of a pad stream in the PCB 6.0 layout (fine scale) or
/// the older one.
pub fn parse_pads(data: &[u8], use_fine_scale: bool) -> (res: Vec<AltiumPad>)
    ensures
        res@.len() == pads_spec(data@, use_fine_scale).len(),
        forall|i: int| 0 <= i < res@.len() ==> {
            let e = pads_spec(data@, use_fine_scale)[i];
            if use_fine_scale { pad_of_v6(e.0, e.1, #[trigger] res@[i]) } else { pad_of_legacy(e.0, e.1, res@[i]) }
        },
{
    if use_fine_scale {
        parse_pads_v6(data)
    } else {
        parse_pads_legacy(data)
    }
}

// ───────────────────────────── texts ─────────────────────────────

#[derive(Debug, Clone, PartialEq)]
pub struct AltiumText {
    pub layer: u8,
    pub component_id: u16,
    pub x: i32,
    pub y: i32,
    pub height: i32,
    /// Bits of the rotation in degrees (a 64-bit float).
    pub rotation: u64,
    pub text: String,
    pub is_designator: bool,
    pub is_comment: bool,
}

/// The texts of a PCB 6.0 text stream from `off` on, each its text and its
/// geometry chunk: a text sub-record (type byte, u32 length, bytes up to
/// trailing NULs), then length-prefixed chunks; a text is kept when its
/// geometry has at least 35 bytes.
pub open spec fn texts_v6(d: Seq<u8>, off: int) -> Seq<(Seq<char>, Seq<u8>)>
    decreases d.len() - off,
{
    if off < 0 || !(off + 12 < d.len()) {
        seq![]
    } else {
        let la = u32_at(d, off + 1);
        let o1 = off + 5;
        if o1 + la > d.len() {
            seq![]
        } else {
            let text = trim_end_nul(utf8_lossy(d.subrange(o1, o1 + la)));
            let sc = chunk_scan(d, o1 + la, None, 35, false);
            proof {
                lemma_chunk_scan(d, o1 + la, None, 35, false);
            }
            let rest = texts_v6(d, sc.0);
            match sc.1 {
                Some(g) => if g.len() >= 35 { seq![(text, g)] + rest } else { rest },
                None => rest,
            }
        }
    }
}

/// The texts of an older text stream: sub-records in pairs of text and
/// geometry; a pair is kept when its geometry has at least 41 bytes.
pub open spec fn texts_legacy(subs: Seq<(u8, Seq<u8>)>, i: int) -> Seq<(Seq<char>, Seq<u8>)>
    decreases subs.len() - i,
{
    if i < 0 || !(i + 1 < subs.len()) {
        seq![]
    } else {
        let text = trim_end_nul(utf8_lossy(subs[i].1));
        let geom = subs[i + 1].1;
        if geom.len() < 41 {
            texts_legacy(subs, i + 2)
        } else {
            seq![(text, geom)] + texts_legacy(subs, i + 2)
        }
    }
}

/// The text record a text and its geometry (at least 35 bytes) describe;
/// `.Designator` and `.Comment` are the special strings.
pub open spec fn text_of(text: Seq<char>, g: Seq<u8>, t: AltiumText) -> bool {
    t.text@ == text && t.layer == g[0] && t.component_id as int == u16_at(g, 7) && t.x as int == i32_at(g, 13)
        && t.y as int == i32_at(g, 17) && t.height as int == i32_at(g, 21) && t.rotation as int == u64_at(g, 27)
        && t.is_designator == (text == ".Designator"@) && t.is_comment == (text == ".Comment"@)
}

/// The text record of a text and its geometry.
fn text_from(text: String, g: &[u8]) -> (res: AltiumText)
    requires
        g.len() >= 35,
    ensures
        text_of(text@, g@, res),
{
    let cs = chars_of(text.as_str());
    let is_designator = crate::text::eq_str(&cs, ".Designator");
    let is_comment = crate::text::eq_str(&cs, ".Comment");
    AltiumText {
        layer: read_u8(g, 0),
        component_id: read_u16(g, 7),
        x: read_i32(g, 13),
        y: read_i32(g, 17),
        height: read_i32(g, 21),
        rotation: read_f64_bits(g, 27),
        text,
        is_designator,
        is_comment,
    }
}

/// Parses texts from a PCB 6.0 text stream with chunk-based sub-records.
fn parse_texts_v6(data: &[u8]) -> (res: Vec<AltiumText>)
    ensures
        res@.len() == texts_v6(data@, 0).len(),
        forall|i: int| 0 <= i < res@.len() ==> text_of(texts_v6(data@, 0)[i].0, texts_v6(data@, 0)[i].1, #[trigger] res@[i]),
{
    let ghost d = data@;
    let mut texts: Vec<AltiumText> = Vec::new();
    let ghost mut done: Seq<(Seq<char>, Seq<u8>)> = seq![];
    let mut offset: usize = 0;
    assert(done + texts_v6(d, 0) =~= texts_v6(d, 0));
    while offset < data.len() && data.len() - offset > 12
        invariant
            offset <= data.len(),
            d == data@,
            texts_v6(d, 0) == done + texts_v6(d, offset as int),
            texts@.len() == done.len(),
            forall|i: int| 0 <= i < texts@.len() ==> text_of(done[i].0, done[i].1, #[trigger] texts@[i]),
        decreases data.len() - offset,
    {
        let la = read_u32_le(data, offset + 1) as usize;
        let o1 = offset + 5;
        if la > data.len() - o1 {
            assert(done + texts_v6(d, offset as int) =~= done);
            return texts;
        }
        let raw = slice_bytes(data, o1, o1 + la);
        let text = lossy_text(&raw);
        let (o2, geometry) = scan_chunks(data, o1 + la, 35, false);
        proof {
            lemma_chunk_scan(d, (o1 + la) as int, None, 35, false);
        }
        match geometry {
            Some(g) => {
                if g.len() >= 35 {
                    let ghost entry = (text@, g@);
                    let t = text_from(text, &g);
                    texts.push(t);
                    proof {
                        assert(done.push(entry) + texts_v6(d, o2 as int) =~= done + (seq![entry] + texts_v6(d, o2 as int)));
                        done = done.push(entry);
                    }
                }
            },
            None => {},
        }
        offset = o2;
    }
    assert(texts_v6(d, offset as int) =~= seq![]);
    assert(done + seq![] =~= done);
    texts
}

/// Parses texts from an older stream of type+length sub-records.
fn parse_texts_legacy(data: &[u8]) -> (res: Vec<AltiumText>)
    ensures
        ({
            let ts = texts_legacy(subrecords(data@, 0), 0);
            &&& res@.len() == ts.len()
            &&& forall|i: int| 0 <= i < res@.len() ==> text_of(ts[i].0, ts[i].1, #[trigger] res@[i])
        }),
{
    let subs = parse_subrecords(data);
    let ghost sv = subrecords_view(subs@);
    let n = subs.len();
    let mut texts: Vec<AltiumText> = Vec::new();
    let ghost mut done: Seq<(Seq<char>, Seq<u8>)> = seq![];
    let mut i: usize = 0;
    assert(done + texts_legacy(sv, 0) =~= texts_legacy(sv, 0));
    while i < n && n - i > 1
        invariant
            i <= n,
            n == subs@.len(),
            sv == subrecords_view(subs@),
            sv == subrecords(data@, 0),
            texts_legacy(sv, 0) == done + texts_legacy(sv, i as int),
            texts@.len() == done.len(),
            forall|k: int| 0 <= k < texts@.len() ==> text_of(done[k].0, done[k].1, #[trigger] texts@[k]),
        decreases n - i,
    {
        assert(sv[i as int] == (subs@[i as int].0, subs@[i as int].1@));
        assert(sv[i + 1] == (subs@[i + 1].0, subs@[i + 1].1@));
        let text = lossy_text(&subs[i].1);
        let geom = &subs[i + 1].1;
        if geom.len() >= 41 {
            let ghost entry = (text@, geom@);
            let t = text_from(text, geom);
            texts.push(t);
            proof {
                assert(done.push(entry) + texts_legacy(sv, i + 2) =~= done + (seq![entry] + texts_legacy(sv, i + 2)));
                done = done.push(entry);
            }
        }
        i += 2;
    }
    assert(texts_legacy(sv, i as int) =~= seq![]);
    assert(done + seq![] =~= done);
    texts
}

/// A text as the dispatcher reads it: the PCB 6.0 layout or the older one.
pub open spec fn texts_spec(data: Seq<u8>, use_fine_scale: bool) -> Seq<(Seq<char>, Seq<u8>)> {
    if use_fine_scale { texts_v6(data, 0) } else { texts_legacy(subrecords(data, 0), 0) }
}

/// Parses the texts of a text stream in the PCB 6.0 layout (fine scale) or
/// the older one.
pub fn parse_texts(data: &[u8], use_fine_scale: bool) -> (res: Vec<AltiumText>)
    ensures
        res@.len() == texts_spec(data@, use_fine_scale).len(),
        forall|i: int| 0 <= i < res@.len() ==> text_of(texts_spec(data@, use_fine_scale)[i].0, texts_spec(data@, use_fine_scale)[i].1, #[trigger] res@[i]),
{
    if use_fine_scale {
        parse_texts_v6(data)
    } else {
        parse_texts_legacy(data)
    }
}

// ───────────────────────────── components ─────────────────────────────

/// A component record. Coordinates and rotation stay the text the record
/// gives (raw internal units, or a value with a `mil` suffix; degrees).
#[derive(Debug, Clone, PartialEq)]
pub struct AltiumComponent {
    pub designator: String,
    pub pattern: String,
    pub comment: String,
    pub x: Option<String>,
    pub y: Option<String>,
    pub rotation: Option<String>,
    pub layer: u8,
}

/// The mathematical content of an [`AltiumComponent`].
pub struct ComponentView {
    pub designator: Seq<char>,
    pub pattern: Seq<char>,
    pub comment: Seq<char>,
    pub x: Option<Seq<char>>,
    pub y: Option<Seq<char>>,
    pub rotation: Option<Seq<char>>,
    pub layer: u8,
}

/// The characters of an optional string.
pub open spec fn opt_view(o: Option<String>) -> Option<Seq<char>> {
    match o {
        Some(s) => Some(s@),
        None => None,
    }
}

impl View for AltiumComponent {
    type V = ComponentView;

    open spec fn view(&self) -> ComponentView {
        ComponentView {
            designator: self.designator@,
            pattern: self.pattern@,
            comment: self.comment@,
            x: opt_view(self.x),
            y: opt_view(self.y),
            rotation: opt_view(self.rotation),
            layer: self.layer,
        }
    }
}

/// A property's value, or the empty text.
pub open spec fn prop_or_empty(r: Seq<PropV>, key: Seq<char>) -> Seq<char> {
    match prop_get(r, key) {
        Some(v) => v,
        None => seq![],
    }
}

/// The component a record describes: the designator is `SOURCEDESIGNATOR`
/// or else `DESIGNATOR`; the comment is a non-empty `COMMENT` or else
/// `SOURCEDESCRIPTION`.
pub open spec fn component_of(r: Seq<PropV>) -> ComponentView {
    ComponentView {
        designator: match prop_get(r, "SOURCEDESIGNATOR"@) {
            Some(v) => v,
            None => prop_or_empty(r, "DESIGNATOR"@),
        },
        pattern: prop_or_empty(r, "PATTERN"@),
        comment: match prop_get(r, "COMMENT"@) {
            Some(v) => if v.len() > 0 { v } else { prop_or_empty(r, "SOURCEDESCRIPTION"@) },
            None => prop_or_empty(r, "SOURCEDESCRIPTION"@),
        },
        x: prop_get(r, "X"@),
        y: prop_get(r, "Y"@),
        rotation: prop_get(r, "ROTATION"@),
        layer: layer_id_spec(r) as u8,
    }
}

/// The components of the records that are components (a `RECORD` of
/// `Component` in any ASCII case, or none), in order.
pub open spec fn components_spec(records: Seq<Seq<PropV>>) -> Seq<ComponentView>
    decreases records.len(),
{
    if records.len() == 0 {
        seq![]
    } else {
        let before = components_spec(records.drop_last());
        if is_kind(records.last(), "Component"@) {
            before.push(component_of(records.last()))
        } else {
            before
        }
    }
}

/// An owned copy of an optional property value.
fn get_owned(r: &TextRecord, key: &str) -> (res: Option<String>)
    ensures
        opt_view(res) == prop_get(props_view(r@), key@),
{
    match record_get(r, key) {
        Some(v) => Some(v.clone()),
        None => None,
    }
}

/// A property's value, or the empty string.
fn get_or_empty(r: &TextRecord, key: &str) -> (res: String)
    ensures
        res@ == prop_or_empty(props_view(r@), key@),
{
    match record_get(r, key) {
        Some(v) => v.clone(),
        None => String::new(),
    }
}

/// The component a record describes.
fn component_from(r: &TextRecord) -> (res: AltiumComponent)
    ensures
        res@ == component_of(props_view(r@)),
{
    let designator = match record_get(r, "SOURCEDESIGNATOR") {
        Some(v) => v.clone(),
        None => get_or_empty(r, "DESIGNATOR"),
    };
    let comment = match record_get(r, "COMMENT") {
        Some(v) => if chars_of(v.as_str()).len() > 0 { v.clone() } else { get_or_empty(r, "SOURCEDESCRIPTION") },
        None => get_or_empty(r, "SOURCEDESCRIPTION"),
    };
    AltiumComponent {
        designator,
        pattern: get_or_empty(r, "PATTERN"),
        comment,
        x: get_owned(r, "X"),
        y: get_owned(r, "Y"),
        rotation: get_owned(r, "ROTATION"),
        layer: parse_layer_id(r),
    }
}

/// The components of a component stream's records.
pub fn parse_components(records: &[TextRecord], _wide_strings: &HashMap<u32, String>) -> (res: Vec<AltiumComponent>)
    ensures
        Seq::new(res@.len(), |i: int| res@[i]@) == components_spec(records_view(records@)),
{
    let mut out: Vec<AltiumComponent> = Vec::new();
    let mut i: usize = 0;
    assert(records_view(records@.take(0)) =~= Seq::<Seq<PropV>>::empty());
    assert(Seq::new(out@.len(), |k: int| out@[k]@) =~= Seq::<ComponentView>::empty());
    while i < records.len()
        invariant
            i <= records@.len(),
            Seq::new(out@.len(), |k: int| out@[k]@) == components_spec(records_view(records@.take(i as int))),
        decreases records.len() - i,
    {
        proof {
            assert(records_view(records@.take(i + 1)).drop_last() =~= records_view(records@.take(i as int)));
            assert(records_view(records@.take(i + 1)).last() == props_view(records@[i as int]@));
        }
        let r = &records[i];
        if is_kind_exec(r, "Component") {
            let c = component_from(r);
            let ghost before = Seq::new(out@.len(), |k: int| out@[k]@);
            let ghost cv = c@;
            out.push(c);
            assert(Seq::new(out@.len(), |k: int| out@[k]@) =~= before.push(cv));
        }
        i += 1;
    }
    assert(records@.take(records.len() as int) =~= records@);
    out
}

} // verus!
