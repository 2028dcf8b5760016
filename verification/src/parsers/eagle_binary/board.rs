//! The board items of an Eagle binary file, in the file's own units
//! (0.1 µm): library packages with their pads, SMDs and drawings, component
//! placements, board-level drawings, and the copper of the nets. Strings
//! that overflow their record come from the string table in the order the
//! records are read.
use vstd::prelude::*;

use crate::bytes::{le_u16_spec, le_u32_spec, signed32};
use crate::error::ExtractError;
use crate::text::{to_string, utf8_lossy};
use crate::ExtractOptions;
use super::{
    all_of_type, find_all_sections, resolve_string, strings_view, until_nul, deref_all, RawRecord, Section, flatten,
    first_of_type, layer_cat_spec, categorize_layer, LayerCat, find_section, SEC_BOARD, SEC_BOARD_NET, SEC_BOARD_PACKAGE, SEC_PACKAGE, SEC_PACKAGES, STRING_OVERFLOW,
};

verus! {

pub const SEC_LINE: u8 = 0x22;
pub const SEC_CIRCLE: u8 = 0x25;
pub const SEC_RECT: u8 = 0x26;
pub const SEC_HOLE: u8 = 0x28;
pub const SEC_VIA: u8 = 0x29;
pub const SEC_PAD: u8 = 0x2a;
pub const SEC_SMD: u8 = 0x2b;
pub const SEC_BOARD_PACKAGE2: u8 = 0x2f;
pub const SEC_TEXT: u8 = 0x31;

// ───────────────────────────── record fields ─────────────────────────────

/// The little-endian u16 at byte `o` of a record.
pub open spec fn rec_u16(r: RawRecord, o: int) -> int {
    le_u16_spec(r.data@[o], r.data@[o + 1])
}

/// The little-endian i32 at byte `o` of a record.
pub open spec fn rec_i32(r: RawRecord, o: int) -> int {
    signed32(le_u32_spec(r.data@[o], r.data@[o + 1], r.data@[o + 2], r.data@[o + 3]))
}

/// A string field and the string-table index after it: the inline text, or
/// the next table entry when the field overflows (empty once the table is
/// used up).
pub open spec fn resolved(r: RawRecord, off: int, len: int, strings: Seq<Seq<char>>, idx: nat) -> (Seq<char>, nat) {
    if r.data@[off] != STRING_OVERFLOW {
        (utf8_lossy(until_nul(r.data@.subrange(off, off + len))), idx)
    } else if idx < strings.len() {
        (strings[idx as int], idx + 1)
    } else {
        (seq![], idx)
    }
}

/// Resolves a string field, as [`resolved`] states.
fn resolve(r: &RawRecord, off: usize, len: usize, strings: &[String], string_idx: &mut usize) -> (res: String)
    requires
        off < 24,
        off + len <= 24,
    ensures
        (res@, *final(string_idx) as nat) == resolved(*r, off as int, len as int, strings_view(strings@), *old(string_idx) as nat),
{
    let s = resolve_string(r, off, len, strings, string_idx);
    proof {
        if r.data@[off as int] == STRING_OVERFLOW && *old(string_idx) < strings@.len() {
            assert(strings_view(strings@)[*old(string_idx) as int] == strings@[*old(string_idx) as int]@);
        }
        if r.data@[off as int] == STRING_OVERFLOW && *old(string_idx) >= strings@.len() {
            assert(s@ =~= seq![]);
        }
    }
    s
}

// ───────────────────────────── packages ─────────────────────────────

/// A through-hole pad of a package. Lengths are in 0.1 µm.
#[derive(Debug, Clone)]
pub struct BinPad {
    pub name: String,
    pub x: i32,
    pub y: i32,
    pub drill: i32,
    pub diameter: i32,
    pub shape: &'static str,
}

/// A surface-mount pad of a package.
#[derive(Debug, Clone)]
pub struct BinSmd {
    pub name: String,
    pub x: i32,
    pub y: i32,
    pub dx: i32,
    pub dy: i32,
    pub layer: u8,
    pub roundness: u8,
}

/// A line of a package or of the board.
#[derive(Debug, Clone, Copy, PartialEq, Eq)]
pub struct BinWire {
    pub x1: i32,
    pub y1: i32,
    pub x2: i32,
    pub y2: i32,
    pub width: i32,
    pub layer: u8,
}

/// A circle of a package.
#[derive(Debug, Clone, Copy, PartialEq, Eq)]
pub struct BinCircle {
    pub x: i32,
    pub y: i32,
    pub radius: i32,
    pub width: i32,
    pub layer: u8,
}

/// A rectangle of a package.
#[derive(Debug, Clone, Copy, PartialEq, Eq)]
pub struct BinRect {
    pub x1: i32,
    pub y1: i32,
    pub x2: i32,
    pub y2: i32,
    pub layer: u8,
}

/// A library package.
#[derive(Debug, Clone)]
pub struct BinPackage {
    pub pads: Vec<BinPad>,
    pub smds: Vec<BinSmd>,
    pub wires: Vec<BinWire>,
    pub circles: Vec<BinCircle>,
    pub rects: Vec<BinRect>,
}

pub struct PadView {
    pub name: Seq<char>,
    pub x: i32,
    pub y: i32,
    pub drill: i32,
    pub diameter: i32,
    pub shape: Seq<char>,
}

pub struct SmdView {
    pub name: Seq<char>,
    pub x: i32,
    pub y: i32,
    pub dx: i32,
    pub dy: i32,
    pub layer: u8,
    pub roundness: u8,
}

#[verifier::ext_equal]
pub struct PackageView {
    pub pads: Seq<PadView>,
    pub smds: Seq<SmdView>,
    pub wires: Seq<BinWire>,
    pub circles: Seq<BinCircle>,
    pub rects: Seq<BinRect>,
}

impl View for BinPad {
    type V = PadView;

    open spec fn view(&self) -> PadView {
        PadView { name: self.name@, x: self.x, y: self.y, drill: self.drill, diameter: self.diameter, shape: self.shape@ }
    }
}

impl View for BinSmd {
    type V = SmdView;

    open spec fn view(&self) -> SmdView {
        SmdView { name: self.name@, x: self.x, y: self.y, dx: self.dx, dy: self.dy, layer: self.layer, roundness: self.roundness }
    }
}

impl View for BinPackage {
    type V = PackageView;

    open spec fn view(&self) -> PackageView {
        PackageView {
            pads: Seq::new(self.pads@.len(), |i: int| self.pads@[i]@),
            smds: Seq::new(self.smds@.len(), |i: int| self.smds@[i]@),
            wires: self.wires@,
            circles: self.circles@,
            rects: self.rects@,
        }
    }
}

/// The shape of a pad from the low three bits of its flags.
pub open spec fn pad_shape(bits: u8) -> Seq<char> {
    if bits == 0 {
        "square"@
    } else if bits == 2 {
        "octagon"@
    } else if bits == 3 {
        "long"@
    } else if bits == 4 {
        "offset"@
    } else {
        "round"@
    }
}

/// The pad a pad record describes.
pub open spec fn pad_of(r: RawRecord, name: Seq<char>) -> PadView {
    PadView {
        name,
        x: rec_i32(r, 4) as i32,
        y: rec_i32(r, 8) as i32,
        drill: (rec_u16(r, 12) * 2) as i32,
        diameter: (rec_u16(r, 14) * 2) as i32,
        shape: pad_shape(r.data@[2] & 7u8),
    }
}

/// The SMD an SMD record describes.
pub open spec fn smd_of(r: RawRecord, name: Seq<char>) -> SmdView {
    SmdView {
        name,
        x: rec_i32(r, 4) as i32,
        y: rec_i32(r, 8) as i32,
        dx: (rec_u16(r, 12) * 2) as i32,
        dy: (rec_u16(r, 14) * 2) as i32,
        layer: r.data@[3],
        roundness: r.data@[2],
    }
}

/// The line a line record describes.
pub open spec fn wire_of(r: RawRecord) -> BinWire {
    BinWire {
        x1: rec_i32(r, 4) as i32,
        y1: rec_i32(r, 8) as i32,
        x2: rec_i32(r, 12) as i32,
        y2: rec_i32(r, 16) as i32,
        width: (rec_u16(r, 20) * 2) as i32,
        layer: r.data@[3],
    }
}

/// The circle a circle record describes.
pub open spec fn circle_of(r: RawRecord) -> BinCircle {
    BinCircle {
        x: rec_i32(r, 4) as i32,
        y: rec_i32(r, 8) as i32,
        radius: rec_i32(r, 12) as i32,
        width: (rec_u16(r, 16) * 2) as i32,
        layer: r.data@[3],
    }
}

/// The rectangle a rectangle record describes.
pub open spec fn rect_of(r: RawRecord) -> BinRect {
    BinRect {
        x1: rec_i32(r, 4) as i32,
        y1: rec_i32(r, 8) as i32,
        x2: rec_i32(r, 12) as i32,
        y2: rec_i32(r, 16) as i32,
        layer: r.data@[3],
    }
}

/// A package with nothing in it.
pub open spec fn empty_package() -> PackageView {
    PackageView { pads: seq![], smds: seq![], wires: seq![], circles: seq![], rects: seq![] }
}

/// The drawables of a package from child `k` on: pads and SMDs (each taking
/// its name, bytes 19 to 24, from the string table when it overflows),
/// lines, circles and rectangles; other children are skipped.
pub open spec fn package_scan(cs: Seq<Section>, k: int, strings: Seq<Seq<char>>, idx: nat, acc: PackageView) -> (PackageView, nat)
    decreases cs.len() - k,
{
    if k < 0 || k >= cs.len() {
        (acc, idx)
    } else {
        let r = cs[k].record;
        let t = r.data@[0];
        if t == SEC_PAD {
            let n = resolved(r, 19, 5, strings, idx);
            package_scan(cs, k + 1, strings, n.1, PackageView { pads: acc.pads.push(pad_of(r, n.0)), ..acc })
        } else if t == SEC_SMD {
            let n = resolved(r, 19, 5, strings, idx);
            package_scan(cs, k + 1, strings, n.1, PackageView { smds: acc.smds.push(smd_of(r, n.0)), ..acc })
        } else if t == SEC_LINE {
            package_scan(cs, k + 1, strings, idx, PackageView { wires: acc.wires.push(wire_of(r)), ..acc })
        } else if t == SEC_CIRCLE {
            package_scan(cs, k + 1, strings, idx, PackageView { circles: acc.circles.push(circle_of(r)), ..acc })
        } else if t == SEC_RECT {
            package_scan(cs, k + 1, strings, idx, PackageView { rects: acc.rects.push(rect_of(r)), ..acc })
        } else {
            package_scan(cs, k + 1, strings, idx, acc)
        }
    }
}

/// A package section's drawables and the string-table index after them.
pub open spec fn package_spec(pkg: Section, strings: Seq<Seq<char>>, idx: nat) -> (PackageView, nat) {
    package_scan(pkg.children@, 0, strings, idx, empty_package())
}

fn pad_shape_exec(bits: u8) -> (res: &'static str)
    ensures
        res@ == pad_shape(bits),
{
    match bits {
        0 => "square",
        1 => "round",
        2 => "octagon",
        3 => "long",
        4 => "offset",
        _ => "round",
    }
}

/// Parses a package section's pads, SMDs, lines, circles and rectangles.
pub fn parse_package_section(pkg: &Section, strings: &[String], string_idx: &mut usize) -> (res: BinPackage)
    ensures
        (res@, *final(string_idx) as nat) == package_spec(*pkg, strings_view(strings@), *old(string_idx) as nat),
{
    let ghost sv = strings_view(strings@);
    let ghost cs = pkg.children@;
    let mut p = BinPackage { pads: Vec::new(), smds: Vec::new(), wires: Vec::new(), circles: Vec::new(), rects: Vec::new() };
    assert(p@ =~= empty_package());
    let mut k: usize = 0;
    while k < pkg.children.len()
        invariant
            k <= cs.len(),
            cs == pkg.children@,
            sv == strings_view(strings@),
            package_spec(*pkg, sv, *old(string_idx) as nat) == package_scan(cs, k as int, sv, *string_idx as nat, p@),
        decreases cs.len() - k,
    {
        let r = &pkg.children[k].record;
        let t = r.sec_type();
        let ghost before = p@;
        if t == SEC_PAD {
            let name = resolve(r, 19, 5, strings, string_idx);
            let pad = BinPad {
                name,
                x: r.i32_at(4),
                y: r.i32_at(8),
                drill: r.u16_at(12) as i32 * 2,
                diameter: r.u16_at(14) as i32 * 2,
                shape: pad_shape_exec(r.u8_at(2) & 0x07),
            };
            let ghost pv = pad@;
            p.pads.push(pad);
            assert(p@ =~= PackageView { pads: before.pads.push(pv), ..before });
        } else if t == SEC_SMD {
            let name = resolve(r, 19, 5, strings, string_idx);
            let smd = BinSmd {
                name,
                x: r.i32_at(4),
                y: r.i32_at(8),
                dx: r.u16_at(12) as i32 * 2,
                dy: r.u16_at(14) as i32 * 2,
                layer: r.u8_at(3),
                roundness: r.u8_at(2),
            };
            let ghost sm = smd@;
            p.smds.push(smd);
            assert(p@ =~= PackageView { smds: before.smds.push(sm), ..before });
        } else if t == SEC_LINE {
            p.wires.push(BinWire {
                x1: r.i32_at(4),
                y1: r.i32_at(8),
                x2: r.i32_at(12),
                y2: r.i32_at(16),
                width: r.u16_at(20) as i32 * 2,
                layer: r.u8_at(3),
            });
            assert(p@ =~= PackageView { wires: before.wires.push(wire_of(*r)), ..before });
        } else if t == SEC_CIRCLE {
            p.circles.push(BinCircle {
                x: r.i32_at(4),
                y: r.i32_at(8),
                radius: r.i32_at(12),
                width: r.u16_at(16) as i32 * 2,
                layer: r.u8_at(3),
            });
            assert(p@ =~= PackageView { circles: before.circles.push(circle_of(*r)), ..before });
        } else if t == SEC_RECT {
            p.rects.push(BinRect {
                x1: r.i32_at(4),
                y1: r.i32_at(8),
                x2: r.i32_at(12),
                y2: r.i32_at(16),
                layer: r.u8_at(3),
            });
            assert(p@ =~= PackageView { rects: before.rects.push(rect_of(*r)), ..before });
        }
        k += 1;
    }
    p
}


/// The packages of one library container from child `k` on: each package
/// child in turn, the string-table index running through them.
pub open spec fn lib_scan(cs: Seq<Section>, k: int, strings: Seq<Seq<char>>, idx: nat, acc: Seq<PackageView>) -> (Seq<PackageView>, nat)
    decreases cs.len() - k,
{
    if k < 0 || k >= cs.len() {
        (acc, idx)
    } else if cs[k].record.data@[0] == SEC_PACKAGE {
        let p = package_spec(cs[k], strings, idx);
        lib_scan(cs, k + 1, strings, p.1, acc.push(p.0))
    } else {
        lib_scan(cs, k + 1, strings, idx, acc)
    }
}

/// The libraries of the containers from `k` on, one per container.
pub open spec fn libs_scan(conts: Seq<Section>, k: int, strings: Seq<Seq<char>>, idx: nat, acc: Seq<Seq<PackageView>>) -> (Seq<Seq<PackageView>>, nat)
    decreases conts.len() - k,
{
    if k < 0 || k >= conts.len() {
        (acc, idx)
    } else {
        let l = lib_scan(conts[k].children@, 0, strings, idx, seq![]);
        libs_scan(conts, k + 1, strings, l.1, acc.push(l.0))
    }
}

/// The library packages of a board: one library per packages section, in
/// pre-order, each holding its package children in order.
pub open spec fn packages_spec(board: Section, strings: Seq<Seq<char>>, idx: nat) -> (Seq<Seq<PackageView>>, nat) {
    libs_scan(all_of_type(flatten(board), SEC_PACKAGES), 0, strings, idx, seq![])
}

pub open spec fn lib_view(v: Seq<BinPackage>) -> Seq<PackageView> {
    Seq::new(v.len(), |i: int| v[i]@)
}

pub open spec fn libs_view(v: Seq<Vec<BinPackage>>) -> Seq<Seq<PackageView>> {
    Seq::new(v.len(), |i: int| lib_view(v[i]@))
}

/// Parses the library packages of a board section.
pub fn extract_packages(board: &Section, strings: &[String], string_idx: &mut usize) -> (res: Vec<Vec<BinPackage>>)
    ensures
        (libs_view(res@), *final(string_idx) as nat) == packages_spec(*board, strings_view(strings@), *old(string_idx) as nat),
{
    let ghost sv = strings_view(strings@);
    let containers = find_all_sections(board, SEC_PACKAGES);
    let ghost conts = deref_all(containers@);
    let mut all_libs: Vec<Vec<BinPackage>> = Vec::new();
    assert(libs_view(all_libs@) =~= Seq::<Seq<PackageView>>::empty());
    let mut c: usize = 0;
    while c < containers.len()
        invariant
            c <= containers@.len(),
            conts == deref_all(containers@),
            conts == all_of_type(flatten(*board), SEC_PACKAGES),
            sv == strings_view(strings@),
            packages_spec(*board, sv, *old(string_idx) as nat) == libs_scan(conts, c as int, sv, *string_idx as nat, libs_view(all_libs@)),
        decreases containers@.len() - c,
    {
        let container = containers[c];
        assert(conts[c as int] == *container);
        let ghost cs = container.children@;
        let ghost idx0 = *string_idx as nat;
        let mut lib: Vec<BinPackage> = Vec::new();
        assert(lib_view(lib@) =~= Seq::<PackageView>::empty());
        let mut k: usize = 0;
        while k < container.children.len()
            invariant
                k <= cs.len(),
                cs == container.children@,
                sv == strings_view(strings@),
                lib_scan(cs, 0, sv, idx0, seq![]) == lib_scan(cs, k as int, sv, *string_idx as nat, lib_view(lib@)),
            decreases cs.len() - k,
        {
            let child = &container.children[k];
            if child.record.sec_type() == SEC_PACKAGE {
                let ghost before = lib_view(lib@);
                let p = parse_package_section(child, strings, string_idx);
                let ghost pv = p@;
                lib.push(p);
                assert(lib_view(lib@) =~= before.push(pv));
            }
            k += 1;
        }
        let ghost before_libs = libs_view(all_libs@);
        let ghost lv = lib_view(lib@);
        all_libs.push(lib);
        assert(libs_view(all_libs@) =~= before_libs.push(lv));
        c += 1;
    }
    all_libs
}


// ───────────────────────────── placements ─────────────────────────────

/// A component placed on the board: which library package it uses
/// (1-based indices), where, and how it is turned.
#[derive(Debug, Clone)]
pub struct BinPlacement {
    pub name: String,
    pub value: String,
    pub x: i32,
    pub y: i32,
    /// Rotation in 4096ths of a full turn.
    pub angle: u16,
    pub mirrored: bool,
    pub lib_idx: u16,
    pub pkg_idx: u16,
}

pub struct PlacementView {
    pub name: Seq<char>,
    pub value: Seq<char>,
    pub x: i32,
    pub y: i32,
    pub angle: u16,
    pub mirrored: bool,
    pub lib_idx: u16,
    pub pkg_idx: u16,
}

impl View for BinPlacement {
    type V = PlacementView;

    open spec fn view(&self) -> PlacementView {
        PlacementView {
            name: self.name@,
            value: self.value@,
            x: self.x,
            y: self.y,
            angle: self.angle,
            mirrored: self.mirrored,
            lib_idx: self.lib_idx,
            pkg_idx: self.pkg_idx,
        }
    }
}

/// The placement a board-package section describes and the string-table
/// index after it. The name (bytes 2 to 10) and value (bytes 10 to 24) come
/// from its first name child; without one both are empty. The angle field
/// holds the rotation in its low twelve bits and the mirror flag in bit 12.
pub open spec fn placement_spec(bp: Section, strings: Seq<Seq<char>>, idx: nat) -> (PlacementView, nat) {
    let r = bp.record;
    let raw = rec_u16(r, 16);
    let names: (Seq<char>, Seq<char>, nat) = match first_of_type(bp.children@, SEC_BOARD_PACKAGE2) {
        Some(c) => {
            let n = resolved(c.record, 2, 8, strings, idx);
            let v = resolved(c.record, 10, 14, strings, n.1);
            (n.0, v.0, v.1)
        },
        None => (seq![], seq![], idx),
    };
    (
        PlacementView {
            name: names.0,
            value: names.1,
            x: rec_i32(r, 4) as i32,
            y: rec_i32(r, 8) as i32,
            angle: (raw % 4096) as u16,
            mirrored: (raw / 4096) % 2 == 1,
            lib_idx: rec_u16(r, 12) as u16,
            pkg_idx: rec_u16(r, 14) as u16,
        },
        names.2,
    )
}

/// The placements of the board-package sections from `k` on.
pub open spec fn placements_scan(bps: Seq<Section>, k: int, strings: Seq<Seq<char>>, idx: nat, acc: Seq<PlacementView>) -> (Seq<PlacementView>, nat)
    decreases bps.len() - k,
{
    if k < 0 || k >= bps.len() {
        (acc, idx)
    } else {
        let p = placement_spec(bps[k], strings, idx);
        placements_scan(bps, k + 1, strings, p.1, acc.push(p.0))
    }
}

/// The placements of a board, one per board-package section in pre-order.
pub open spec fn placements_spec(board: Section, strings: Seq<Seq<char>>, idx: nat) -> (Seq<PlacementView>, nat) {
    placements_scan(all_of_type(flatten(board), SEC_BOARD_PACKAGE), 0, strings, idx, seq![])
}

pub open spec fn placements_view(v: Seq<BinPlacement>) -> Seq<PlacementView> {
    Seq::new(v.len(), |i: int| v[i]@)
}

/// The first child of the given type.
fn first_child_of_type(s: &Section, t: u8) -> (res: Option<&Section>)
    ensures
        res matches Some(c) ==> first_of_type(s.children@, t) == Some(*c),
        res is None ==> first_of_type(s.children@, t) is None,
{
    let ghost cs = s.children@;
    let mut i: usize = 0;
    assert(cs.skip(0) =~= cs);
    while i < s.children.len()
        invariant
            i <= cs.len(),
            cs == s.children@,
            first_of_type(cs, t) == first_of_type(cs.skip(i as int), t),
        decreases cs.len() - i,
    {
        assert(cs.skip(i as int).drop_first() =~= cs.skip(i + 1));
        assert(cs.skip(i as int)[0] == cs[i as int]);
        if s.children[i].record.sec_type() == t {
            return Some(&s.children[i]);
        }
        i += 1;
    }
    assert(cs.skip(i as int) =~= Seq::<Section>::empty());
    None
}

/// Reads the placement of one board-package section.
fn parse_placement(bp: &Section, strings: &[String], string_idx: &mut usize) -> (res: BinPlacement)
    ensures
        (res@, *final(string_idx) as nat) == placement_spec(*bp, strings_view(strings@), *old(string_idx) as nat),
{
    let rec = &bp.record;
    let raw = rec.u16_at(16);
    let mut name = String::new();
    let mut value = String::new();
    match first_child_of_type(bp, SEC_BOARD_PACKAGE2) {
        Some(child) => {
            name = resolve(&child.record, 2, 8, strings, string_idx);
            value = resolve(&child.record, 10, 14, strings, string_idx);
        },
        None => {},
    }
    assert(raw & 0x0FFF == raw % 4096) by (bit_vector);
    assert((raw & 0x1000 != 0) == ((raw / 4096) % 2 == 1)) by (bit_vector);
    BinPlacement {
        name,
        value,
        x: rec.i32_at(4),
        y: rec.i32_at(8),
        angle: raw & 0x0FFF,
        mirrored: (raw & 0x1000) != 0,
        lib_idx: rec.u16_at(12),
        pkg_idx: rec.u16_at(14),
    }
}

/// Reads the component placements of a board section.
pub fn extract_placements(board: &Section, strings: &[String], string_idx: &mut usize) -> (res: Vec<BinPlacement>)
    ensures
        (placements_view(res@), *final(string_idx) as nat) == placements_spec(*board, strings_view(strings@), *old(string_idx) as nat),
{
    let ghost sv = strings_view(strings@);
    let bp_sections = find_all_sections(board, SEC_BOARD_PACKAGE);
    let ghost bps = deref_all(bp_sections@);
    let mut placements: Vec<BinPlacement> = Vec::new();
    assert(placements_view(placements@) =~= Seq::<PlacementView>::empty());
    let mut i: usize = 0;
    while i < bp_sections.len()
        invariant
            i <= bp_sections@.len(),
            bps == deref_all(bp_sections@),
            bps == all_of_type(flatten(*board), SEC_BOARD_PACKAGE),
            sv == strings_view(strings@),
            placements_spec(*board, sv, *old(string_idx) as nat) == placements_scan(bps, i as int, sv, *string_idx as nat, placements_view(placements@)),
        decreases bp_sections@.len() - i,
    {
        let bp = bp_sections[i];
        assert(bps[i as int] == *bp);
        let ghost before = placements_view(placements@);
        let p = parse_placement(bp, strings, string_idx);
        let ghost pv = p@;
        placements.push(p);
        assert(placements_view(placements@) =~= before.push(pv));
        i += 1;
    }
    placements
}


// ───────────────────────────── board drawings ─────────────────────────────

/// A drawing of the board outline, silkscreen or fabrication layers, in file
/// units with the file's y axis.
#[derive(Debug, Clone, Copy, PartialEq, Eq, Structural)]
pub enum BoardDrawing {
    Segment { x1: i32, y1: i32, x2: i32, y2: i32, width: i32 },
    Circle { x: i32, y: i32, radius: i32, width: i32 },
    Rect { x1: i32, y1: i32, x2: i32, y2: i32 },
}

/// Board drawings sorted by the layer group they belong to.
#[derive(Debug, Clone)]
pub struct BoardDrawings {
    pub edges: Vec<BoardDrawing>,
    pub silk_f: Vec<BoardDrawing>,
    pub silk_b: Vec<BoardDrawing>,
    pub fab_f: Vec<BoardDrawing>,
    pub fab_b: Vec<BoardDrawing>,
}

#[verifier::ext_equal]
pub struct DrawingsView {
    pub edges: Seq<BoardDrawing>,
    pub silk_f: Seq<BoardDrawing>,
    pub silk_b: Seq<BoardDrawing>,
    pub fab_f: Seq<BoardDrawing>,
    pub fab_b: Seq<BoardDrawing>,
}

impl View for BoardDrawings {
    type V = DrawingsView;

    open spec fn view(&self) -> DrawingsView {
        DrawingsView {
            edges: self.edges@,
            silk_f: self.silk_f@,
            silk_b: self.silk_b@,
            fab_f: self.fab_f@,
            fab_b: self.fab_b@,
        }
    }
}

pub open spec fn no_drawings() -> DrawingsView {
    DrawingsView { edges: seq![], silk_f: seq![], silk_b: seq![], fab_f: seq![], fab_b: seq![] }
}

/// The drawing a board-level record describes, with its layer: lines,
/// circles and rectangles keep theirs; a hole is a circle of half its drill
/// on the outline layer (20). Other records draw nothing.
pub open spec fn board_item(r: RawRecord) -> Option<(u8, BoardDrawing)> {
    let t = r.data@[0];
    if t == SEC_LINE {
        let w = wire_of(r);
        Some((w.layer, BoardDrawing::Segment { x1: w.x1, y1: w.y1, x2: w.x2, y2: w.y2, width: w.width }))
    } else if t == SEC_CIRCLE {
        let c = circle_of(r);
        Some((c.layer, BoardDrawing::Circle { x: c.x, y: c.y, radius: c.radius, width: c.width }))
    } else if t == SEC_RECT {
        let q = rect_of(r);
        Some((q.layer, BoardDrawing::Rect { x1: q.x1, y1: q.y1, x2: q.x2, y2: q.y2 }))
    } else if t == SEC_HOLE {
        Some((20u8, BoardDrawing::Circle { x: rec_i32(r, 4) as i32, y: rec_i32(r, 8) as i32, radius: rec_u16(r, 12) as i32, width: 0 }))
    } else {
        None
    }
}

/// `acc` with `d` added to the group of `layer`; copper and other layers
/// keep no board drawings.
pub open spec fn file_drawing(acc: DrawingsView, layer: u8, d: BoardDrawing) -> DrawingsView {
    match layer_cat_spec(layer as int) {
        LayerCat::Edge => DrawingsView { edges: acc.edges.push(d), ..acc },
        LayerCat::SilkF => DrawingsView { silk_f: acc.silk_f.push(d), ..acc },
        LayerCat::SilkB => DrawingsView { silk_b: acc.silk_b.push(d), ..acc },
        LayerCat::FabF => DrawingsView { fab_f: acc.fab_f.push(d), ..acc },
        LayerCat::FabB => DrawingsView { fab_b: acc.fab_b.push(d), ..acc },
        _ => acc,
    }
}

/// The drawings of the board's children from `k` on. A text child takes its
/// string (bytes 16 to 24) from the table when it overflows, so that later
/// strings stay in step, and draws nothing.
pub open spec fn drawings_scan(cs: Seq<Section>, k: int, strings: Seq<Seq<char>>, idx: nat, acc: DrawingsView) -> (DrawingsView, nat)
    decreases cs.len() - k,
{
    if k < 0 || k >= cs.len() {
        (acc, idx)
    } else {
        let r = cs[k].record;
        let next = if r.data@[0] == SEC_TEXT { resolved(r, 16, 8, strings, idx).1 } else { idx };
        let acc2 = match board_item(r) {
            Some(item) => file_drawing(acc, item.0, item.1),
            None => acc,
        };
        drawings_scan(cs, k + 1, strings, next, acc2)
    }
}

/// The board-level drawings: those among the board section's direct children.
pub open spec fn drawings_spec(board: Section, strings: Seq<Seq<char>>, idx: nat) -> (DrawingsView, nat) {
    drawings_scan(board.children@, 0, strings, idx, no_drawings())
}

fn board_item_exec(r: &RawRecord) -> (res: Option<(u8, BoardDrawing)>)
    ensures
        res == board_item(*r),
{
    let t = r.sec_type();
    if t == SEC_LINE {
        Some((r.u8_at(3), BoardDrawing::Segment {
            x1: r.i32_at(4),
            y1: r.i32_at(8),
            x2: r.i32_at(12),
            y2: r.i32_at(16),
            width: r.u16_at(20) as i32 * 2,
        }))
    } else if t == SEC_CIRCLE {
        Some((r.u8_at(3), BoardDrawing::Circle {
            x: r.i32_at(4),
            y: r.i32_at(8),
            radius: r.i32_at(12),
            width: r.u16_at(16) as i32 * 2,
        }))
    } else if t == SEC_RECT {
        Some((r.u8_at(3), BoardDrawing::Rect { x1: r.i32_at(4), y1: r.i32_at(8), x2: r.i32_at(12), y2: r.i32_at(16) }))
    } else if t == SEC_HOLE {
        Some((20u8, BoardDrawing::Circle { x: r.i32_at(4), y: r.i32_at(8), radius: r.u16_at(12) as i32, width: 0 }))
    } else {
        None
    }
}

/// Reads the board-level drawings (outline, silkscreen, fabrication).
pub fn extract_board_drawings(board: &Section, strings: &[String], string_idx: &mut usize) -> (res: BoardDrawings)
    ensures
        (res@, *final(string_idx) as nat) == drawings_spec(*board, strings_view(strings@), *old(string_idx) as nat),
{
    let ghost sv = strings_view(strings@);
    let ghost cs = board.children@;
    let mut d = BoardDrawings { edges: Vec::new(), silk_f: Vec::new(), silk_b: Vec::new(), fab_f: Vec::new(), fab_b: Vec::new() };
    assert(d@ =~= no_drawings());
    let mut k: usize = 0;
    while k < board.children.len()
        invariant
            k <= cs.len(),
            cs == board.children@,
            sv == strings_view(strings@),
            drawings_spec(*board, sv, *old(string_idx) as nat) == drawings_scan(cs, k as int, sv, *string_idx as nat, d@),
        decreases cs.len() - k,
    {
        let rec = &board.children[k].record;
        if rec.sec_type() == SEC_TEXT {
            let _ = resolve(rec, 16, 8, strings, string_idx);
        }
        let ghost before = d@;
        match board_item_exec(rec) {
            Some((layer, item)) => {
                match categorize_layer(layer) {
                    LayerCat::Edge => d.edges.push(item),
                    LayerCat::SilkF => d.silk_f.push(item),
                    LayerCat::SilkB => d.silk_b.push(item),
                    LayerCat::FabF => d.fab_f.push(item),
                    LayerCat::FabB => d.fab_b.push(item),
                    _ => {},
                }
                assert(d@ =~= file_drawing(before, layer, item));
            },
            None => {},
        }
        k += 1;
    }
    d
}

// ───────────────────────────── copper ─────────────────────────────

/// A piece of copper of a net, in file units with the file's y axis.
#[derive(Debug, Clone, Copy, PartialEq, Eq, Structural)]
pub enum TrackItem {
    Segment { x1: i32, y1: i32, x2: i32, y2: i32, width: i32 },
    /// A via: its copper diameter and its drill.
    Via { x: i32, y: i32, diameter: i32, drill: i32 },
}

/// Copper on the top and bottom layers.
#[derive(Debug, Clone)]
pub struct BoardTracks {
    pub front: Vec<TrackItem>,
    pub back: Vec<TrackItem>,
}

#[verifier::ext_equal]
pub struct TracksView {
    pub front: Seq<TrackItem>,
    pub back: Seq<TrackItem>,
}

impl View for BoardTracks {
    type V = TracksView;

    open spec fn view(&self) -> TracksView {
        TracksView { front: self.front@, back: self.back@ }
    }
}

/// The via a via record describes; one without a diameter is twice as wide
/// as its drill.
pub open spec fn via_of(r: RawRecord) -> TrackItem {
    let drill = rec_u16(r, 12) * 2;
    let dia = rec_u16(r, 14) * 2;
    TrackItem::Via {
        x: rec_i32(r, 4) as i32,
        y: rec_i32(r, 8) as i32,
        diameter: (if dia > 0 { dia } else { drill * 2 }) as i32,
        drill: drill as i32,
    }
}

/// `acc` with one net child added: a line goes to the side of its copper
/// layer (none for other layers), a via to both sides.
pub open spec fn net_item(acc: TracksView, r: RawRecord) -> TracksView {
    let t = r.data@[0];
    if t == SEC_LINE {
        let w = wire_of(r);
        let seg = TrackItem::Segment { x1: w.x1, y1: w.y1, x2: w.x2, y2: w.y2, width: w.width };
        match layer_cat_spec(w.layer as int) {
            LayerCat::CopperF => TracksView { front: acc.front.push(seg), ..acc },
            LayerCat::CopperB => TracksView { back: acc.back.push(seg), ..acc },
            _ => acc,
        }
    } else if t == SEC_VIA {
        TracksView { front: acc.front.push(via_of(r)), back: acc.back.push(via_of(r)) }
    } else {
        acc
    }
}

pub open spec fn net_scan(cs: Seq<Section>, k: int, acc: TracksView) -> TracksView
    decreases cs.len() - k,
{
    if k < 0 || k >= cs.len() {
        acc
    } else {
        net_scan(cs, k + 1, net_item(acc, cs[k].record))
    }
}

pub open spec fn nets_scan(nets: Seq<Section>, k: int, acc: TracksView) -> TracksView
    decreases nets.len() - k,
{
    if k < 0 || k >= nets.len() {
        acc
    } else {
        nets_scan(nets, k + 1, net_scan(nets[k].children@, 0, acc))
    }
}

/// The copper of a board: the children of each net section, nets in
/// pre-order and children in order.
pub open spec fn tracks_spec(board: Section) -> TracksView {
    nets_scan(all_of_type(flatten(board), SEC_BOARD_NET), 0, TracksView { front: seq![], back: seq![] })
}

/// Reads the tracks and vias of the board's nets.
pub fn extract_tracks(board: &Section) -> (res: BoardTracks)
    ensures
        res@ == tracks_spec(*board),
{
    let nets = find_all_sections(board, SEC_BOARD_NET);
    let ghost ns = deref_all(nets@);
    let mut tr = BoardTracks { front: Vec::new(), back: Vec::new() };
    assert(tr@ =~= TracksView { front: seq![], back: seq![] });
    let mut n: usize = 0;
    while n < nets.len()
        invariant
            n <= nets@.len(),
            ns == deref_all(nets@),
            ns == all_of_type(flatten(*board), SEC_BOARD_NET),
            tracks_spec(*board) == nets_scan(ns, n as int, tr@),
        decreases nets@.len() - n,
    {
        let net = nets[n];
        assert(ns[n as int] == *net);
        let ghost cs = net.children@;
        let ghost start = tr@;
        let mut k: usize = 0;
        while k < net.children.len()
            invariant
                k <= cs.len(),
                cs == net.children@,
                net_scan(cs, 0, start) == net_scan(cs, k as int, tr@),
            decreases cs.len() - k,
        {
            let rec = &net.children[k].record;
            let t = rec.sec_type();
            let ghost before = tr@;
            if t == SEC_LINE {
                let seg = TrackItem::Segment {
                    x1: rec.i32_at(4),
                    y1: rec.i32_at(8),
                    x2: rec.i32_at(12),
                    y2: rec.i32_at(16),
                    width: rec.u16_at(20) as i32 * 2,
                };
                match categorize_layer(rec.u8_at(3)) {
                    LayerCat::CopperF => tr.front.push(seg),
                    LayerCat::CopperB => tr.back.push(seg),
                    _ => {},
                }
            } else if t == SEC_VIA {
                let drill = rec.u16_at(12) as i32 * 2;
                let dia = rec.u16_at(14) as i32 * 2;
                let via = TrackItem::Via {
                    x: rec.i32_at(4),
                    y: rec.i32_at(8),
                    diameter: if dia > 0 { dia } else { drill * 2 },
                    drill,
                };
                tr.front.push(via);
                tr.back.push(via);
            }
            assert(tr@ =~= net_item(before, *rec));
            k += 1;
        }
        n += 1;
    }
    tr
}


// ───────────────────────────── the board ─────────────────────────────

/// Everything read from the board section, in file units: library packages
/// (by 1-based library and package index), placements, board drawings, and
/// the copper when it was asked for.
#[derive(Debug, Clone)]
pub struct BoardItems {
    pub packages: Vec<Vec<BinPackage>>,
    pub placements: Vec<BinPlacement>,
    pub drawings: BoardDrawings,
    pub tracks: Option<BoardTracks>,
}

pub struct BoardItemsView {
    pub packages: Seq<Seq<PackageView>>,
    pub placements: Seq<PlacementView>,
    pub drawings: DrawingsView,
    pub tracks: Option<TracksView>,
}

impl View for BoardItems {
    type V = BoardItemsView;

    open spec fn view(&self) -> BoardItemsView {
        BoardItemsView {
            packages: libs_view(self.packages@),
            placements: placements_view(self.placements@),
            drawings: self.drawings@,
            tracks: match self.tracks {
                Some(t) => Some(t@),
                None => None,
            },
        }
    }
}

/// What a board section holds and the string-table index after it. The
/// string table is read in this order: packages, placements, drawings.
pub open spec fn board_spec(board: Section, strings: Seq<Seq<char>>, idx: nat, include_tracks: bool) -> (BoardItemsView, nat) {
    let p = packages_spec(board, strings, idx);
    let q = placements_spec(board, strings, p.1);
    let d = drawings_spec(board, strings, q.1);
    (
        BoardItemsView {
            packages: p.0,
            placements: q.0,
            drawings: d.0,
            tracks: if include_tracks { Some(tracks_spec(board)) } else { None },
        },
        d.1,
    )
}

/// Reads the items of the first board section of the tree (in pre-order);
/// fails when there is none.
pub fn extract_board(tree: &Section, strings: &[String], string_idx: &mut usize, opts: &ExtractOptions) -> (res: Result<BoardItems, ExtractError>)
    ensures
        first_of_type(flatten(*tree), SEC_BOARD) is None ==> (res matches Err(ExtractError::ParseError(m))
            && m@ == "Eagle binary: no board section found"@ && *final(string_idx) == *old(string_idx)),
        first_of_type(flatten(*tree), SEC_BOARD) matches Some(b) ==> (res matches Ok(items)
            && (items@, *final(string_idx) as nat) == board_spec(b, strings_view(strings@), *old(string_idx) as nat, opts.include_tracks)),
{
    let board = match find_section(tree, SEC_BOARD) {
        Some(b) => b,
        None => {
            return Err(ExtractError::ParseError(to_string("Eagle binary: no board section found")));
        },
    };
    let packages = extract_packages(board, strings, string_idx);
    let placements = extract_placements(board, strings, string_idx);
    let drawings = extract_board_drawings(board, strings, string_idx);
    let tracks = if opts.include_tracks {
        Some(extract_tracks(board))
    } else {
        None
    };
    Ok(BoardItems { packages, placements, drawings, tracks })
}

} // verus!
