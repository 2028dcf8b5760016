//! Altium `.PcbDoc` streams: text property records (`|KEY=value|...`), binary
//! sub-records of tracks, vias and fills, and the board's layer mapping.
pub mod board;
pub mod records;

use vstd::prelude::*;

use crate::bytes::{le_i32, le_u16, le_u16_spec, le_u32, le_u32_spec, signed32};
use crate::error::ExtractError;
use std::collections::HashMap;
use crate::text::{
    chars_of, decimal, decimal_chars, ends_with, ends_with_str, parse_unsigned, parse_unsigned_exec,
    push_chars, push_char, string_from_chars, to_string, to_uppercase, uppercase,
};

verus! {

/// One text property record: `(KEY, value)` pairs with distinct upper-case keys.
pub type TextRecord = Vec<(String, String)>;

pub type PropV = (Seq<char>, Seq<char>);

pub open spec fn props_view(r: Seq<(String, String)>) -> Seq<PropV> {
    r.map_values(|p: (String, String)| (p.0@, p.1@))
}

/// Value stored under `key`.
pub open spec fn prop_get(props: Seq<PropV>, key: Seq<char>) -> Option<Seq<char>>
    decreases props.len(),
{
    if props.len() == 0 {
        None
    } else if props.last().0 == key {
        Some(props.last().1)
    } else {
        prop_get(props.drop_last(), key)
    }
}

/// Stores `value` under `key`, replacing an earlier value of that key in place.
pub open spec fn prop_put(props: Seq<PropV>, key: Seq<char>, value: Seq<char>) -> Seq<PropV> {
    if exists|i: int| 0 <= i < props.len() && (#[trigger] props[i]).0 == key {
        let i = choose|i: int| 0 <= i < props.len() && (#[trigger] props[i]).0 == key;
        props.update(i, (key, value))
    } else {
        props.push((key, value))
    }
}

pub open spec fn keys_distinct(props: Seq<PropV>) -> bool {
    forall|i: int, j: int| 0 <= i < j < props.len() ==> (#[trigger] props[i]).0 != (#[trigger] props[j]).0
}

/// The Latin-1 text of a record: bytes up to the first zero, each byte a char.
pub open spec fn latin1_until_nul(b: Seq<u8>) -> Seq<char>
    decreases b.len(),
{
    if b.len() == 0 || b[0] == 0 {
        seq![]
    } else {
        seq![b[0] as char] + latin1_until_nul(b.drop_first())
    }
}

/// Index of the first `=` in `s`.
pub open spec fn first_eq(s: Seq<char>) -> Option<int>
    decreases s.len(),
{
    if s.len() == 0 {
        None
    } else if s[0] == '=' {
        Some(0)
    } else {
        match first_eq(s.drop_first()) {
            Some(i) => Some(i + 1),
            None => None,
        }
    }
}

/// Adds one `|`-separated piece: a non-empty piece holding a `=` stores its
/// upper-cased key and its value.
pub open spec fn add_piece(props: Seq<PropV>, p: Seq<char>) -> Seq<PropV> {
    match first_eq(p) {
        Some(i) => if p.len() > 0 {
            prop_put(props, uppercase(p.take(i)), p.skip(i + 1))
        } else {
            props
        },
        None => props,
    }
}

/// Properties of the text `s`, split at `|`, given the piece `cur` read so far
/// and the properties `props` stored so far.
pub open spec fn scan_props(s: Seq<char>, cur: Seq<char>, props: Seq<PropV>) -> Seq<PropV>
    decreases s.len(),
{
    if s.len() == 0 {
        add_piece(props, cur)
    } else if s[0] == '|' {
        scan_props(s.drop_first(), seq![], add_piece(props, cur))
    } else {
        scan_props(s.drop_first(), cur.push(s[0]), props)
    }
}

/// The property records of a text record stream starting at byte `off`:
/// each record is a little-endian u32 length followed by that many bytes.
pub open spec fn text_records(d: Seq<u8>, off: int) -> Seq<Seq<PropV>>
    decreases d.len() - off,
{
    if off < 0 || off + 4 > d.len() {
        seq![]
    } else {
        let len = le_u32_spec(d[off], d[off + 1], d[off + 2], d[off + 3]);
        let start = off + 4;
        if start + len > d.len() {
            seq![]
        } else {
            let props = scan_props(latin1_until_nul(d.subrange(start, start + len)), seq![], seq![]);
            if props.len() > 0 {
                seq![props] + text_records(d, start + len)
            } else {
                text_records(d, start + len)
            }
        }
    }
}

// ───────────────────────────── text records ─────────────────────────────

/// Value stored under `key` in a record.
pub fn record_get<'a>(record: &'a TextRecord, key: &str) -> (res: Option<&'a String>)
    ensures
        res matches Some(v) ==> prop_get(props_view(record@), key@) == Some(v@),
        res is None ==> prop_get(props_view(record@), key@) is None,
{
    let mut i = record.len();
    assert(record@.take(record@.len() as int) =~= record@);
    while i > 0
        invariant
            i <= record@.len(),
            prop_get(props_view(record@), key@) == prop_get(props_view(record@.take(i as int)), key@),
        decreases i,
    {
        let ghost pv = props_view(record@.take(i as int));
        assert(pv.last() == (record@[i - 1].0@, record@[i - 1].1@));
        assert(pv.drop_last() =~= props_view(record@.take(i - 1)));
        let kc = chars_of(record[i - 1].0.as_str());
        if crate::text::eq_str(&kc, key) {
            return Some(&record[i - 1].1);
        }
        i -= 1;
    }
    assert(props_view(record@.take(0)) =~= Seq::<PropV>::empty());
    None
}

fn record_put(props: &mut Vec<(String, String)>, key: String, value: String)
    requires
        keys_distinct(props_view(old(props)@)),
    ensures
        keys_distinct(props_view(final(props)@)),
        props_view(final(props)@) == prop_put(props_view(old(props)@), key@, value@),
{
    let ghost pv = props_view(props@);
    let mut i: usize = 0;
    while i < props.len()
        invariant
            i <= props@.len(),
            pv == props_view(props@),
            props@ == old(props)@,
            keys_distinct(pv),
            forall|j: int| 0 <= j < i ==> (#[trigger] pv[j]).0 != key@,
        decreases props.len() - i,
    {
        if props[i].0 == key {
            proof {
                assert(pv[i as int].0 == key@);
                let w = choose|w: int| 0 <= w < pv.len() && (#[trigger] pv[w]).0 == key@;
                if w < i {
                    assert(pv[w].0 != pv[i as int].0);
                } else if w > i {
                    assert(pv[i as int].0 != pv[w].0);
                }
                assert(w == i);
                assert(exists|w: int| 0 <= w < pv.len() && (#[trigger] pv[w]).0 == key@);
                assert(prop_put(pv, key@, value@) == pv.update(i as int, (key@, value@)));
                let nv = pv.update(i as int, (key@, value@));
                assert forall|a: int, b: int| 0 <= a < b < nv.len() implies (#[trigger] nv[a]).0 != (#[trigger] nv[b]).0 by {
                    assert(nv[a].0 == pv[a].0 && nv[b].0 == pv[b].0);
                }
            }
            props.remove(i);
            props.insert(i, (key, value));
            assert(props_view(props@) =~= pv.update(i as int, (key@, value@)));
            return;
        }
        i += 1;
    }
    props.push((key, value));
    assert(props_view(props@) =~= pv.push((key@, value@)));
}

fn add_piece_exec(props: &mut Vec<(String, String)>, cur: &Vec<char>)
    requires
        keys_distinct(props_view(old(props)@)),
    ensures
        keys_distinct(props_view(final(props)@)),
        props_view(final(props)@) == add_piece(props_view(old(props)@), cur@),
{
    if cur.len() == 0 {
        return;
    }
    let mut e: usize = 0;
    assert(cur@.skip(0) =~= cur@);
    while e < cur.len() && cur[e] != '='
        invariant
            e <= cur@.len(),
            first_eq(cur@) == (match first_eq(cur@.skip(e as int)) { Some(q) => Some(q + e), None => None::<int> }),
        decreases cur.len() - e,
    {
        assert(cur@.skip(e as int).drop_first() =~= cur@.skip(e + 1));
        e += 1;
    }
    if e < cur.len() {
        assert(cur@.skip(e as int)[0] == '=');
        let key_chars = crate::text::slice_chars(cur, 0, e);
        let val_chars = crate::text::slice_chars(cur, e + 1, cur.len());
        let key_s = string_from_chars(&key_chars);
        let key_up = to_uppercase(key_s.as_str());
        let val_s = string_from_chars(&val_chars);
        assert(key_chars@ =~= cur@.take(e as int));
        assert(val_chars@ =~= cur@.skip(e + 1));
        record_put(props, key_up, val_s);
    } else {
        assert(cur@.skip(e as int) =~= Seq::<char>::empty());
    }
}

/// Parse an Altium text record stream into property records.
pub fn parse_text_record_stream(data: &[u8]) -> (res: Vec<TextRecord>)
    ensures
        res@.map_values(|r: TextRecord| props_view(r@)) == text_records(data@, 0),
        forall|i: int| 0 <= i < res@.len() ==> keys_distinct(props_view((#[trigger] res@[i])@)),
{
    let mut records: Vec<TextRecord> = Vec::new();
    let mut offset: usize = 0;
    while offset <= data.len() && data.len() - offset >= 4
        invariant
            offset <= data@.len(),
            records@.map_values(|r: TextRecord| props_view(r@)) + text_records(data@, offset as int) == text_records(data@, 0),
            forall|i: int| 0 <= i < records@.len() ==> keys_distinct(props_view((#[trigger] records@[i])@)),
        decreases data.len() - offset,
    {
        let len = le_u32(data[offset], data[offset + 1], data[offset + 2], data[offset + 3]) as usize;
        let start = offset + 4;
        if len > data.len() - start {
            assert(text_records(data@, offset as int) =~= Seq::<Seq<PropV>>::empty());
            assert(text_records(data@, data@.len() as int) =~= Seq::<Seq<PropV>>::empty());
            offset = data.len();
            continue;
        }
        let end = start + len;
        // Parse as Latin-1 (Altium uses Windows-1252)
        let mut text: Vec<char> = Vec::new();
        let mut k = start;
        let ghost body = data@.subrange(start as int, end as int);
        assert(body.skip(0) =~= body);
        assert(text@ + latin1_until_nul(body) =~= latin1_until_nul(body));
        while k < end && data[k] != 0
            invariant
                start <= k <= end <= data@.len(),
                body == data@.subrange(start as int, end as int),
                text@ + latin1_until_nul(body.skip(k - start)) == latin1_until_nul(body),
            decreases end - k,
        {
            proof {
                let rest = body.skip(k - start);
                assert(rest[0] == data@[k as int]);
                assert(rest.drop_first() =~= body.skip(k + 1 - start));
                vstd::seq_lib::lemma_concat_associative(text@, seq![data@[k as int] as char], latin1_until_nul(rest.drop_first()));
            }
            text.push(data[k] as char);
            k += 1;
        }
        proof {
            let rest = body.skip(k - start);
            if k < end { assert(rest[0] == 0); }
            assert(latin1_until_nul(rest) =~= Seq::<char>::empty());
            assert(text@ + Seq::<char>::empty() =~= text@);
        }
        // split on '|' and store key=value pairs
        let mut props: Vec<(String, String)> = Vec::new();
        let mut cur: Vec<char> = Vec::new();
        let ghost all = text@;
        let mut j: usize = 0;
        assert(text@.skip(0) =~= text@);
        assert(props_view(props@) =~= Seq::<PropV>::empty());
        while j < text.len()
            invariant
                j <= text@.len(),
                all == text@,
                keys_distinct(props_view(props@)),
                scan_props(text@.skip(j as int), cur@, props_view(props@)) == scan_props(all, seq![], seq![]),
            decreases text.len() - j,
        {
            let ghost rest = text@.skip(j as int);
            assert(rest[0] == text@[j as int]);
            assert(rest.drop_first() =~= text@.skip(j + 1));
            if text[j] == '|' {
                add_piece_exec(&mut props, &cur);
                cur = Vec::new();
            } else {
                cur.push(text[j]);
            }
            j += 1;
        }
        assert(text@.skip(j as int) =~= Seq::<char>::empty());
        add_piece_exec(&mut props, &cur);
        if props.len() > 0 {
            let ghost before = records@;
            records.push(props);
            proof {
                assert(records@.map_values(|r: TextRecord| props_view(r@)) =~= before.map_values(|r: TextRecord| props_view(r@)).push(props_view(props@)));
                vstd::seq_lib::lemma_concat_associative(before.map_values(|r: TextRecord| props_view(r@)), seq![props_view(props@)], text_records(data@, end as int));
                assert(before.map_values(|r: TextRecord| props_view(r@)) + seq![props_view(props@)] =~= records@.map_values(|r: TextRecord| props_view(r@)));
            }
        }
        offset = end;
    }
    proof {
        if !(offset <= data.len() && data.len() - offset >= 4) {
            assert(text_records(data@, offset as int) =~= Seq::<Seq<PropV>>::empty());
            assert(records@.map_values(|r: TextRecord| props_view(r@)) + Seq::<Seq<PropV>>::empty() =~= records@.map_values(|r: TextRecord| props_view(r@)));
        }
    }
    records
}


// ───────────────────────────── nets, layers, metadata ─────────────────────────────

#[derive(Debug, Clone, PartialEq)]
pub struct AltiumNet {
    pub name: String,
}

/// ASCII lower-case of a character.
pub open spec fn ascii_lower(c: char) -> char {
    if 'A' <= c <= 'Z' { ((c as int) + 32) as char } else { c }
}

/// ASCII case-insensitive equality (`str::eq_ignore_ascii_case`).
pub open spec fn eq_ignore_ascii_case(a: Seq<char>, b: Seq<char>) -> bool {
    a.len() == b.len() && forall|i: int| 0 <= i < a.len() ==> ascii_lower(#[trigger] a[i]) == ascii_lower(b[i])
}

fn ascii_lower_exec(c: char) -> (res: char)
    ensures
        res == ascii_lower(c),
{
    if 'A' <= c && c <= 'Z' {
        ((c as u32) + 32) as u8 as char
    } else {
        c
    }
}

pub fn eq_ignore_ascii_case_exec(a: &str, b: &str) -> (res: bool)
    ensures
        res == eq_ignore_ascii_case(a@, b@),
{
    let ac = chars_of(a);
    let bc = chars_of(b);
    if ac.len() != bc.len() {
        return false;
    }
    let mut i: usize = 0;
    while i < ac.len()
        invariant
            i <= ac@.len(),
            ac@.len() == bc@.len(),
            ac@ == a@,
            bc@ == b@,
            forall|k: int| 0 <= k < i ==> ascii_lower(#[trigger] ac@[k]) == ascii_lower(bc@[k]),
        decreases ac.len() - i,
    {
        if ascii_lower_exec(ac[i]) != ascii_lower_exec(bc[i]) {
            return false;
        }
        i += 1;
    }
    true
}

/// A record of the given kind: its `RECORD` property names the kind (in any
/// ASCII case), or it has no `RECORD` property.
pub open spec fn is_kind(r: Seq<PropV>, kind: Seq<char>) -> bool {
    match prop_get(r, "RECORD"@) {
        Some(v) => eq_ignore_ascii_case(v, kind),
        None => true,
    }
}

pub(crate) fn is_kind_exec(r: &TextRecord, kind: &str) -> (res: bool)
    ensures
        res == is_kind(props_view(r@), kind@),
{
    match record_get(r, "RECORD") {
        Some(v) => eq_ignore_ascii_case_exec(v.as_str(), kind),
        None => true,
    }
}

/// Net names: the empty net at index 0, then each net record's `NAME`.
pub open spec fn net_names(records: Seq<Seq<PropV>>) -> Seq<Seq<char>>
    decreases records.len(),
{
    if records.len() == 0 {
        seq![seq![]]
    } else {
        let r = records.last();
        let before = net_names(records.drop_last());
        if is_kind(r, "Net"@) {
            before.push(match prop_get(r, "NAME"@) { Some(n) => n, None => seq![] })
        } else {
            before
        }
    }
}

pub open spec fn records_view(v: Seq<TextRecord>) -> Seq<Seq<PropV>> {
    v.map_values(|r: TextRecord| props_view(r@))
}

pub fn parse_nets(records: &[TextRecord]) -> (res: Vec<AltiumNet>)
    ensures
        res@.map_values(|n: AltiumNet| n.name@) == net_names(records_view(records@)),
{
    // Net records include index 0 as empty
    let mut nets = Vec::new();
    nets.push(AltiumNet { name: String::new() });
    let mut i: usize = 0;
    proof {
        assert(records_view(records@.take(0)) =~= Seq::<Seq<PropV>>::empty());
        assert(nets@.map_values(|n: AltiumNet| n.name@) =~= seq![Seq::<char>::empty()]);
    }
    while i < records.len()
        invariant
            i <= records@.len(),
            nets@.map_values(|n: AltiumNet| n.name@) == net_names(records_view(records@.take(i as int))),
        decreases records.len() - i,
    {
        proof {
            assert(records_view(records@.take(i + 1)).drop_last() =~= records_view(records@.take(i as int)));
            assert(records_view(records@.take(i + 1)).last() == props_view(records@[i as int]@));
        }
        let r = &records[i];
        if is_kind_exec(r, "Net") {
            let name = match record_get(r, "NAME") {
                Some(n) => n.clone(),
                None => String::new(),
            };
            let ghost before = nets@;
            nets.push(AltiumNet { name });
            assert(nets@.map_values(|n: AltiumNet| n.name@) =~= before.map_values(|n: AltiumNet| n.name@).push(name@));
        }
        i += 1;
    }
    assert(records@.take(records.len() as int) =~= records@);
    nets
}

/// Whether any record's `X` coordinate carries a "mil" suffix (PCB 6.0 format).
pub fn detect_mil_format(records: &[TextRecord]) -> (res: bool)
    ensures
        res == exists|i: int| 0 <= i < records@.len() && (prop_get(props_view((#[trigger] records@[i])@), "X"@) matches Some(v) && ends_with(v, "mil"@)),
{
    let mut i: usize = 0;
    while i < records.len()
        invariant
            i <= records@.len(),
            forall|k: int| 0 <= k < i ==> !(prop_get(props_view((#[trigger] records@[k])@), "X"@) matches Some(v) && ends_with(v, "mil"@)),
        decreases records.len() - i,
    {
        if let Some(v) = record_get(&records[i], "X") {
            let vc = chars_of(v.as_str());
            if ends_with_str(&vc, "mil") {
                return true;
            }
        }
        i += 1;
    }
    false
}

/// Layer id of a record: `V7_LAYER`, else `LAYER`, else "1"; a layer name
/// (TOP, BOTTOM, TOPOVERLAY, BOTTOMOVERLAY, MULTILAYER) maps to its id, a
/// V7 id (above 0x01000000) keeps its low byte, any other number is taken
/// modulo 256, and anything else is layer 1.
pub open spec fn layer_id_spec(r: Seq<PropV>) -> int {
    let val = match prop_get(r, "V7_LAYER"@) {
        Some(v) => v,
        None => match prop_get(r, "LAYER"@) {
            Some(v) => v,
            None => "1"@,
        },
    };
    let up = uppercase(val);
    if up == "TOP"@ {
        1
    } else if up == "BOTTOM"@ {
        32
    } else if up == "TOPOVERLAY"@ {
        33
    } else if up == "BOTTOMOVERLAY"@ {
        34
    } else if up == "MULTILAYER"@ {
        74
    } else {
        match parse_unsigned(val, 0xffff_ffff) {
            Some(v) => (v % 256) as int,
            None => 1,
        }
    }
}

pub fn parse_layer_id(record: &TextRecord) -> (res: u8)
    ensures
        res as int == layer_id_spec(props_view(record@)),
{
    // Try V7_LAYER first, then LAYER
    let val: String = match record_get(record, "V7_LAYER") {
        Some(v) => v.clone(),
        None => match record_get(record, "LAYER") {
            Some(v) => v.clone(),
            None => to_string("1"),
        },
    };
    // Handle string layer names (e.g. "TOP", "BOTTOM")
    let up = to_uppercase(val.as_str());
    let upc = chars_of(up.as_str());
    if crate::text::eq_str(&upc, "TOP") {
        return 1;
    } else if crate::text::eq_str(&upc, "BOTTOM") {
        return 32;
    } else if crate::text::eq_str(&upc, "TOPOVERLAY") {
        return 33;
    } else if crate::text::eq_str(&upc, "BOTTOMOVERLAY") {
        return 34;
    } else if crate::text::eq_str(&upc, "MULTILAYER") {
        return 74;
    }
    // Numeric layer ID
    let vc = chars_of(val.as_str());
    match parse_unsigned_exec(&vc, 0xffff_ffff) {
        // V7 layer IDs have base 0x01000000 and keep their low byte
        Some(v) => (v % 256) as u8,
        None => 1,
    }
}

/// Board-level category of an Altium layer.
#[derive(Debug, Clone, Copy, PartialEq, Eq)]
pub enum LayerCategory {
    CopperF,
    CopperB,
    CopperInner,
    SilkF,
    SilkB,
    FabF,
    FabB,
    Other,
}

/// Layer categories of a board: explicit overrides and the kinds of its
/// mechanical layers, both keyed by V6 layer id.
pub struct LayerMap {
    /// Maps V6 layer ID -> category
    pub categories: Vec<(u8, LayerCategory)>,
    /// Mechanical layer mechkind mappings from Board6
    pub mech_kinds: Vec<(u8, String)>,
}

/// The first entry for `id` in `v`.
pub open spec fn first_for<T>(v: Seq<(u8, T)>, id: u8) -> Option<T>
    decreases v.len(),
{
    if v.len() == 0 {
        None
    } else if v[0].0 == id {
        Some(v[0].1)
    } else {
        first_for(v.drop_first(), id)
    }
}

pub open spec fn mech_kinds_view(v: Seq<(u8, String)>) -> Seq<(u8, Seq<char>)> {
    v.map_values(|p: (u8, String)| (p.0, p.1@))
}

/// Category of a layer id under a layer map.
pub open spec fn category_spec(m: LayerMap, id: u8) -> LayerCategory {
    match first_for(m.categories@, id) {
        Some(c) => c,
        None => if id == 1 {
            LayerCategory::CopperF
        } else if 2 <= id <= 30 {
            LayerCategory::CopperInner
        } else if id == 32 {
            LayerCategory::CopperB
        } else if id == 33 {
            LayerCategory::SilkF
        } else if id == 34 {
            LayerCategory::SilkB
        } else if id == 74 {
            LayerCategory::CopperF
        } else if 57 <= id <= 72 {
            match first_for(mech_kinds_view(m.mech_kinds@), id) {
                Some(kind) => {
                    let up = uppercase(kind);
                    if up == "ASSEMBLY_TOP"@ || up == "COURTYARD_TOP"@ {
                        LayerCategory::FabF
                    } else if up == "ASSEMBLY_BOTTOM"@ || up == "COURTYARD_BOTTOM"@ {
                        LayerCategory::FabB
                    } else {
                        LayerCategory::Other
                    }
                },
                None => LayerCategory::Other,
            }
        } else {
            LayerCategory::Other
        },
    }
}

/// Without an explicit category, the standard layer ids keep copper and
/// silkscreen on their sides: top copper (1) and top overlay (33) are on
/// the front, bottom copper (32) and bottom overlay (34) on the back, the
/// mid layers (2..=30) are inner copper and the multi-layer (74) counts as
/// front copper; an explicit category always wins.
pub proof fn lemma_standard_layer_sides(m: LayerMap, id: u8)
    ensures
        first_for(m.categories@, id) matches Some(c) ==> category_spec(m, id) == c,
        first_for(m.categories@, id) is None ==> {
            &&& (id == 1 || id == 74) ==> category_spec(m, id) == LayerCategory::CopperF
            &&& id == 32 ==> category_spec(m, id) == LayerCategory::CopperB
            &&& 2 <= id <= 30 ==> category_spec(m, id) == LayerCategory::CopperInner
            &&& id == 33 ==> category_spec(m, id) == LayerCategory::SilkF
            &&& id == 34 ==> category_spec(m, id) == LayerCategory::SilkB
            &&& (id == 0 || id == 31 || 35 <= id <= 56 || id == 73 || id >= 75) ==> category_spec(m, id)
                == LayerCategory::Other
        },
{
}

/// A mechanical layer (57..=72) that no explicit category covers takes its
/// side from its mechanical kind: an assembly or courtyard kind that ends in
/// `_TOP` (in any letter case) is top fabrication, one that ends in
/// `_BOTTOM` bottom fabrication.
pub proof fn lemma_mech_kind_names_side(m: LayerMap, id: u8, kind: Seq<char>, base: Seq<char>)
    requires
        57 <= id <= 72,
        first_for(m.categories@, id) is None,
        first_for(mech_kinds_view(m.mech_kinds@), id) == Some(kind),
        base == "ASSEMBLY"@ || base == "COURTYARD"@,
    ensures
        uppercase(kind) == base + "_TOP"@ ==> category_spec(m, id) == LayerCategory::FabF,
        uppercase(kind) == base + "_BOTTOM"@ ==> category_spec(m, id) == LayerCategory::FabB,
{
    reveal_strlit("ASSEMBLY");
    reveal_strlit("COURTYARD");
    reveal_strlit("_TOP");
    reveal_strlit("_BOTTOM");
    reveal_strlit("ASSEMBLY_TOP");
    reveal_strlit("COURTYARD_TOP");
    reveal_strlit("ASSEMBLY_BOTTOM");
    reveal_strlit("COURTYARD_BOTTOM");
    assert("ASSEMBLY"@ + "_TOP"@ =~= "ASSEMBLY_TOP"@);
    assert("COURTYARD"@ + "_TOP"@ =~= "COURTYARD_TOP"@);
    assert("ASSEMBLY"@ + "_BOTTOM"@ =~= "ASSEMBLY_BOTTOM"@);
    assert("COURTYARD"@ + "_BOTTOM"@ =~= "COURTYARD_BOTTOM"@);
}

impl LayerMap {
    pub fn side(&self, layer_id: u8) -> (res: &'static str)
        ensures
            res@ == (match category_spec(*self, layer_id) {
                LayerCategory::CopperB | LayerCategory::SilkB | LayerCategory::FabB => "B"@,
                _ => "F"@,
            }),
    {
        match self.category(layer_id) {
            LayerCategory::CopperF | LayerCategory::SilkF | LayerCategory::FabF => "F",
            LayerCategory::CopperB | LayerCategory::SilkB | LayerCategory::FabB => "B",
            _ => "F",
        }
    }

    /// Return a layer name string for inner copper layers (IDs 2-30).
    /// Uses KiCad-compatible naming: "In1.Cu", "In2.Cu", etc.
    pub fn inner_layer_name(&self, layer_id: u8) -> (res: String)
        requires
            layer_id >= 1,
        ensures
            res@ == "In"@ + decimal((layer_id - 1) as nat) + ".Cu"@,
    {
        let mut s = to_string("In");
        let d = decimal_chars((layer_id - 1) as u64);
        push_chars(&mut s, &d);
        let suffix = chars_of(".Cu");
        push_chars(&mut s, &suffix);
        s
    }

    pub fn category(&self, layer_id: u8) -> (res: LayerCategory)
        ensures
            res == category_spec(*self, layer_id),
    {
        let mut i: usize = 0;
        assert(self.categories@.skip(0) =~= self.categories@);
        while i < self.categories.len()
            invariant
                i <= self.categories@.len(),
                first_for(self.categories@, layer_id) == first_for(self.categories@.skip(i as int), layer_id),
            decreases self.categories.len() - i,
        {
            assert(self.categories@.skip(i as int).drop_first() =~= self.categories@.skip(i + 1));
            if self.categories[i].0 == layer_id {
                return self.categories[i].1;
            }
            i += 1;
        }
        assert(self.categories@.skip(i as int) =~= Seq::<(u8, LayerCategory)>::empty());
        // V6 standard layer mapping
        if layer_id == 1 {
            LayerCategory::CopperF
        } else if 2 <= layer_id && layer_id <= 30 {
            LayerCategory::CopperInner
        } else if layer_id == 32 {
            LayerCategory::CopperB
        } else if layer_id == 33 {
            LayerCategory::SilkF
        } else if layer_id == 34 {
            LayerCategory::SilkB
        } else if layer_id == 74 {
            // Multi-layer, treat as front
            LayerCategory::CopperF
        } else if 57 <= layer_id && layer_id <= 72 {
            // Mechanical layers - check mechkind
            let ghost mk = mech_kinds_view(self.mech_kinds@);
            let mut j: usize = 0;
            assert(mk.skip(0) =~= mk);
            while j < self.mech_kinds.len()
                invariant
                    j <= self.mech_kinds@.len(),
                    57 <= layer_id <= 72,
                    first_for(self.categories@, layer_id) is None,
                    mk == mech_kinds_view(self.mech_kinds@),
                    first_for(mk, layer_id) == first_for(mk.skip(j as int), layer_id),
                decreases self.mech_kinds.len() - j,
            {
                assert(mk.skip(j as int).drop_first() =~= mk.skip(j + 1));
                assert(mk.skip(j as int)[0] == (self.mech_kinds@[j as int].0, self.mech_kinds@[j as int].1@));
                if self.mech_kinds[j].0 == layer_id {
                    let up = to_uppercase(self.mech_kinds[j].1.as_str());
                    let uc = chars_of(up.as_str());
                    if crate::text::eq_str(&uc, "ASSEMBLY_TOP") || crate::text::eq_str(&uc, "COURTYARD_TOP") {
                        return LayerCategory::FabF;
                    } else if crate::text::eq_str(&uc, "ASSEMBLY_BOTTOM") || crate::text::eq_str(&uc, "COURTYARD_BOTTOM") {
                        return LayerCategory::FabB;
                    } else {
                        return LayerCategory::Other;
                    }
                }
                j += 1;
            }
            assert(mk.skip(j as int) =~= Seq::<(u8, Seq<char>)>::empty());
            LayerCategory::Other
        } else {
            LayerCategory::Other
        }
    }
}

/// Key of the mechanical-kind property of mechanical layer `i`.
pub open spec fn mechkind_key(i: nat) -> Seq<char> {
    "LAYERV7_"@ + decimal(i) + "MECHKIND"@
}

/// Mechanical layer kinds of the first board record: for each `i` in 1..=32
/// with a `LAYERV7_<i>MECHKIND` property, layer id 56 + i and that kind.
pub open spec fn mech_kinds_spec(board: Seq<PropV>, n: nat) -> Seq<(u8, Seq<char>)>
    decreases n,
{
    if n == 0 {
        seq![]
    } else {
        let before = mech_kinds_spec(board, (n - 1) as nat);
        match prop_get(board, mechkind_key(n)) {
            Some(kind) => before.push(((56 + n) as u8, kind)),
            None => before,
        }
    }
}

pub fn build_layer_map(board_records: &[TextRecord]) -> (res: LayerMap)
    ensures
        res.categories@.len() == 0,
        board_records@.len() == 0 ==> res.mech_kinds@.len() == 0,
        board_records@.len() > 0 ==> mech_kinds_view(res.mech_kinds@) == mech_kinds_spec(props_view(board_records@[0]@), 32),
{
    let mut mech_kinds: Vec<(u8, String)> = Vec::new();
    // Parse mechkind from board records
    if board_records.len() > 0 {
        let board = &board_records[0];
        let mut i: u64 = 1;
        assert(mech_kinds_view(mech_kinds@) =~= mech_kinds_spec(props_view(board@), 0));
        while i <= 32
            invariant
                1 <= i <= 33,
                mech_kinds_view(mech_kinds@) == mech_kinds_spec(props_view(board@), (i - 1) as nat),
            decreases 33 - i,
        {
            let mut key = to_string("LAYERV7_");
            let d = decimal_chars(i);
            push_chars(&mut key, &d);
            let suffix = chars_of("MECHKIND");
            push_chars(&mut key, &suffix);
            if let Some(kind) = record_get(board, key.as_str()) {
                // Mechanical layers start at V6 ID 57
                let layer_id = 56 + i as u8;
                let ghost before = mech_kinds@;
                mech_kinds.push((layer_id, kind.clone()));
                assert(mech_kinds_view(mech_kinds@) =~= mech_kinds_view(before).push((layer_id, kind@)));
            }
            i += 1;
        }
    }
    LayerMap { categories: Vec::new(), mech_kinds }
}

/// Title block of a board.
#[derive(Debug, Clone, PartialEq)]
pub struct Metadata {
    pub title: String,
    pub revision: String,
    pub company: String,
    pub date: String,
}

/// Board metadata: the title is the first board record's `DESIGNNAME`.
pub fn extract_metadata(board_records: &[TextRecord]) -> (res: Metadata)
    ensures
        board_records@.len() > 0 && prop_get(props_view(board_records@[0]@), "DESIGNNAME"@) is Some
            ==> res.title@ == prop_get(props_view(board_records@[0]@), "DESIGNNAME"@)->0,
        !(board_records@.len() > 0 && prop_get(props_view(board_records@[0]@), "DESIGNNAME"@) is Some)
            ==> res.title@.len() == 0,
        res.revision@.len() == 0,
        res.company@.len() == 0,
        res.date@.len() == 0,
{
    let title = if board_records.len() > 0 {
        match record_get(&board_records[0], "DESIGNNAME") {
            Some(t) => t.clone(),
            None => String::new(),
        }
    } else {
        String::new()
    };
    Metadata { title, revision: String::new(), company: String::new(), date: String::new() }
}

// ───────────────────────────── binary records ─────────────────────────────

pub fn read_u8(data: &[u8], offset: usize) -> (res: u8)
    ensures
        offset < data@.len() ==> res == data@[offset as int],
        offset >= data@.len() ==> res == 0,
{
    if offset < data.len() { data[offset] } else { 0 }
}

pub fn read_u16(data: &[u8], offset: usize) -> (res: u16)
    ensures
        offset + 2 <= data@.len() ==> res as int == le_u16_spec(data@[offset as int], data@[offset + 1]),
        offset + 2 > data@.len() ==> res == 0,
{
    if offset > data.len() || data.len() - offset < 2 {
        return 0;
    }
    le_u16(data[offset], data[offset + 1])
}

pub fn read_i32(data: &[u8], offset: usize) -> (res: i32)
    ensures
        offset + 4 <= data@.len() ==> res as int == signed32(le_u32_spec(data@[offset as int], data@[offset + 1], data@[offset + 2], data@[offset + 3])),
        offset + 4 > data@.len() ==> res == 0,
{
    if offset > data.len() || data.len() - offset < 4 {
        return 0;
    }
    le_i32(data[offset], data[offset + 1], data[offset + 2], data[offset + 3])
}

/// Binary sub-records from byte `off` on: a type tag, a little-endian u32
/// length and that many bytes, until the data ends or a length overruns it.
pub open spec fn subrecords(d: Seq<u8>, off: int) -> Seq<(u8, Seq<u8>)>
    decreases d.len() - off,
{
    if off < 0 || off + 5 > d.len() {
        seq![]
    } else {
        let len = le_u32_spec(d[off + 1], d[off + 2], d[off + 3], d[off + 4]);
        let start = off + 5;
        if start + len > d.len() {
            seq![]
        } else {
            seq![(d[off], d.subrange(start, start + len))] + subrecords(d, start + len)
        }
    }
}

pub open spec fn subrecords_view(v: Seq<(u8, Vec<u8>)>) -> Seq<(u8, Seq<u8>)> {
    v.map_values(|r: (u8, Vec<u8>)| (r.0, r.1@))
}

/// Parse binary subrecords from a stream: (record_type_tag, subrecord_data).
pub fn parse_subrecords(data: &[u8]) -> (res: Vec<(u8, Vec<u8>)>)
    ensures
        subrecords_view(res@) == subrecords(data@, 0),
{
    let mut records: Vec<(u8, Vec<u8>)> = Vec::new();
    let mut offset: usize = 0;
    assert(subrecords_view(records@) + subrecords(data@, 0) =~= subrecords(data@, 0));
    while offset <= data.len() && data.len() - offset >= 5
        invariant
            offset <= data@.len(),
            subrecords_view(records@) + subrecords(data@, offset as int) == subrecords(data@, 0),
        decreases data.len() - offset,
    {
        let record_type = data[offset];
        let len = le_u32(data[offset + 1], data[offset + 2], data[offset + 3], data[offset + 4]) as usize;
        let start = offset + 5;
        if len > data.len() - start {
            assert(subrecords(data@, offset as int) =~= Seq::<(u8, Seq<u8>)>::empty());
            assert(subrecords(data@, data@.len() as int) =~= Seq::<(u8, Seq<u8>)>::empty());
            offset = data.len();
            continue;
        }
        let body = crate::text::slice_bytes(data, start, start + len);
        let ghost before = records@;
        records.push((record_type, body));
        proof {
            assert(subrecords_view(records@) =~= subrecords_view(before).push((record_type, body@)));
            vstd::seq_lib::lemma_concat_associative(subrecords_view(before), seq![(record_type, body@)], subrecords(data@, (start + len) as int));
            assert(subrecords_view(before) + seq![(record_type, body@)] =~= subrecords_view(records@));
        }
        offset = start + len;
    }
    proof {
        if !(offset <= data.len() && data.len() - offset >= 5) {
            assert(subrecords(data@, offset as int) =~= Seq::<(u8, Seq<u8>)>::empty());
        }
        assert(subrecords_view(records@) + Seq::<(u8, Seq<u8>)>::empty() =~= subrecords_view(records@));
    }
    records
}

#[derive(Debug, Clone, PartialEq)]
pub struct AltiumTrack {
    pub layer: u8,
    pub net_id: u16,
    pub component_id: u16,
    pub start_x: i32,
    pub start_y: i32,
    pub end_x: i32,
    pub end_y: i32,
    pub width: i32,
}

#[derive(Debug, Clone, PartialEq)]
pub struct AltiumVia {
    pub net_id: u16,
    pub x: i32,
    pub y: i32,
    pub diameter: i32,
    pub hole_size: i32,
}

#[derive(Debug, Clone, PartialEq)]
pub struct AltiumFill {
    pub layer: u8,
    pub component_id: u16,
    pub x1: i32,
    pub y1: i32,
    pub x2: i32,
    pub y2: i32,
}

pub open spec fn u16_at(s: Seq<u8>, o: int) -> int {
    le_u16_spec(s[o], s[o + 1])
}

pub open spec fn i32_at(s: Seq<u8>, o: int) -> int {
    signed32(le_u32_spec(s[o], s[o + 1], s[o + 2], s[o + 3]))
}

/// The track a sub-record of at least 33 bytes describes.
pub open spec fn track_of(s: Seq<u8>, t: AltiumTrack) -> bool {
    t.layer == s[0] && t.net_id as int == u16_at(s, 3) && t.component_id as int == u16_at(s, 7)
        && t.start_x as int == i32_at(s, 13) && t.start_y as int == i32_at(s, 17)
        && t.end_x as int == i32_at(s, 21) && t.end_y as int == i32_at(s, 25) && t.width as int == i32_at(s, 29)
}

/// The via a sub-record of at least 29 bytes describes.
pub open spec fn via_of(s: Seq<u8>, v: AltiumVia) -> bool {
    v.net_id as int == u16_at(s, 3) && v.x as int == i32_at(s, 13) && v.y as int == i32_at(s, 17)
        && v.diameter as int == i32_at(s, 21) && v.hole_size as int == i32_at(s, 25)
}

/// The fill a sub-record of at least 29 bytes describes.
pub open spec fn fill_of(s: Seq<u8>, f: AltiumFill) -> bool {
    f.layer == s[0] && f.component_id as int == u16_at(s, 7) && f.x1 as int == i32_at(s, 13)
        && f.y1 as int == i32_at(s, 17) && f.x2 as int == i32_at(s, 21) && f.y2 as int == i32_at(s, 25)
}

/// The sub-record bodies of at least `min` bytes, in order.
pub open spec fn long_bodies(srs: Seq<(u8, Seq<u8>)>, min: int) -> Seq<Seq<u8>> {
    srs.filter(|r: (u8, Seq<u8>)| r.1.len() >= min).map_values(|r: (u8, Seq<u8>)| r.1)
}

pub proof fn lemma_long_bodies_push(srs: Seq<(u8, Seq<u8>)>, r: (u8, Seq<u8>), min: int)
    ensures
        long_bodies(srs.push(r), min) == if r.1.len() >= min { long_bodies(srs, min).push(r.1) } else { long_bodies(srs, min) },
{
    reveal_with_fuel(Seq::filter, 1);
    assert(srs.push(r).drop_last() =~= srs);
    let f = |x: (u8, Seq<u8>)| x.1.len() >= min;
    assert(srs.push(r).filter(f) == if f(r) { srs.filter(f).push(r) } else { srs.filter(f) });
    if r.1.len() >= min {
        assert(srs.filter(f).push(r).map_values(|x: (u8, Seq<u8>)| x.1) =~= srs.filter(f).map_values(|x: (u8, Seq<u8>)| x.1).push(r.1));
    }
}

pub fn parse_tracks(data: &[u8]) -> (res: Vec<AltiumTrack>)
    ensures
        res@.len() == long_bodies(subrecords(data@, 0), 33).len(),
        forall|i: int| 0 <= i < res@.len() ==> track_of(long_bodies(subrecords(data@, 0), 33)[i], #[trigger] res@[i]),
{
    let subs = parse_subrecords(data);
    let ghost sv = subrecords_view(subs@);
    let mut out: Vec<AltiumTrack> = Vec::new();
    let mut i: usize = 0;
    assert(sv.take(0) =~= Seq::<(u8, Seq<u8>)>::empty());
    assert(long_bodies(sv.take(0), 33) =~= Seq::<Seq<u8>>::empty()) by { reveal_with_fuel(Seq::filter, 1); }
    while i < subs.len()
        invariant
            i <= subs@.len(),
            sv == subrecords_view(subs@),
            out@.len() == long_bodies(sv.take(i as int), 33).len(),
            forall|k: int| 0 <= k < out@.len() ==> track_of(long_bodies(sv.take(i as int), 33)[k], #[trigger] out@[k]),
        decreases subs.len() - i,
    {
        let sr = &subs[i].1;
        proof {
            assert(sv.take(i + 1) =~= sv.take(i as int).push(sv[i as int]));
            lemma_long_bodies_push(sv.take(i as int), sv[i as int], 33);
        }
        if sr.len() >= 33 {
            let t = AltiumTrack {
                layer: read_u8(sr, 0),
                net_id: read_u16(sr, 3),
                component_id: read_u16(sr, 7),
                start_x: read_i32(sr, 13),
                start_y: read_i32(sr, 17),
                end_x: read_i32(sr, 21),
                end_y: read_i32(sr, 25),
                width: read_i32(sr, 29),
            };
            out.push(t);
        }
        i += 1;
    }
    assert(sv.take(subs.len() as int) =~= sv);
    out
}

pub fn parse_vias(data: &[u8]) -> (res: Vec<AltiumVia>)
    ensures
        res@.len() == long_bodies(subrecords(data@, 0), 29).len(),
        forall|i: int| 0 <= i < res@.len() ==> via_of(long_bodies(subrecords(data@, 0), 29)[i], #[trigger] res@[i]),
{
    let subs = parse_subrecords(data);
    let ghost sv = subrecords_view(subs@);
    let mut out: Vec<AltiumVia> = Vec::new();
    let mut i: usize = 0;
    assert(sv.take(0) =~= Seq::<(u8, Seq<u8>)>::empty());
    assert(long_bodies(sv.take(0), 29) =~= Seq::<Seq<u8>>::empty()) by { reveal_with_fuel(Seq::filter, 1); }
    while i < subs.len()
        invariant
            i <= subs@.len(),
            sv == subrecords_view(subs@),
            out@.len() == long_bodies(sv.take(i as int), 29).len(),
            forall|k: int| 0 <= k < out@.len() ==> via_of(long_bodies(sv.take(i as int), 29)[k], #[trigger] out@[k]),
        decreases subs.len() - i,
    {
        let sr = &subs[i].1;
        proof {
            assert(sv.take(i + 1) =~= sv.take(i as int).push(sv[i as int]));
            lemma_long_bodies_push(sv.take(i as int), sv[i as int], 29);
        }
        if sr.len() >= 29 {
            let v = AltiumVia {
                net_id: read_u16(sr, 3),
                x: read_i32(sr, 13),
                y: read_i32(sr, 17),
                diameter: read_i32(sr, 21),
                hole_size: read_i32(sr, 25),
            };
            out.push(v);
        }
        i += 1;
    }
    assert(sv.take(subs.len() as int) =~= sv);
    out
}

pub fn parse_fills(data: &[u8]) -> (res: Vec<AltiumFill>)
    ensures
        res@.len() == long_bodies(subrecords(data@, 0), 29).len(),
        forall|i: int| 0 <= i < res@.len() ==> fill_of(long_bodies(subrecords(data@, 0), 29)[i], #[trigger] res@[i]),
{
    let subs = parse_subrecords(data);
    let ghost sv = subrecords_view(subs@);
    let mut out: Vec<AltiumFill> = Vec::new();
    let mut i: usize = 0;
    assert(sv.take(0) =~= Seq::<(u8, Seq<u8>)>::empty());
    assert(long_bodies(sv.take(0), 29) =~= Seq::<Seq<u8>>::empty()) by { reveal_with_fuel(Seq::filter, 1); }
    while i < subs.len()
        invariant
            i <= subs@.len(),
            sv == subrecords_view(subs@),
            out@.len() == long_bodies(sv.take(i as int), 29).len(),
            forall|k: int| 0 <= k < out@.len() ==> fill_of(long_bodies(sv.take(i as int), 29)[k], #[trigger] out@[k]),
        decreases subs.len() - i,
    {
        let sr = &subs[i].1;
        proof {
            assert(sv.take(i + 1) =~= sv.take(i as int).push(sv[i as int]));
            lemma_long_bodies_push(sv.take(i as int), sv[i as int], 29);
        }
        if sr.len() >= 29 {
            let f = AltiumFill {
                layer: read_u8(sr, 0),
                component_id: read_u16(sr, 7),
                x1: read_i32(sr, 13),
                y1: read_i32(sr, 17),
                x2: read_i32(sr, 21),
                y2: read_i32(sr, 25),
            };
            out.push(f);
        }
        i += 1;
    }
    assert(sv.take(subs.len() as int) =~= sv);
    out
}

// ───────────────────────────── compound document ─────────────────────────────

/// Why `cfb::CompoundFile::open` refuses bytes, or nothing when it accepts
/// them.
pub uninterp spec fn cfb_open_failure(data: Seq<u8>) -> Option<Seq<char>>;

/// The content of the stream at `path` of a compound document, when the
/// document opens and the stream can be read to the end.
pub uninterp spec fn cfb_stream(data: Seq<u8>, path: Seq<char>) -> Option<Seq<u8>>;

/// What `String::from_utf16_lossy` makes of UTF-16 code units.
pub uninterp spec fn utf16_lossy(units: Seq<u16>) -> Seq<char>;

/// Calls `cfb::CompoundFile::open` on the bytes. The result is named
/// [`cfb_open_failure`]: the error's message, a function of the bytes. The
/// compound-file format is not written out.
#[verifier::external_body]
fn open_failure(data: &[u8]) -> (res: Option<String>)
    ensures
        match res {
            Some(m) => cfb_open_failure(data@) == Some(m@),
            None => cfb_open_failure(data@) is None,
        },
{
    cfb::CompoundFile::open(std::io::Cursor::new(data)).err().map(|e| e.to_string())
}

/// Calls `cfb::CompoundFile::open`, `open_stream(path)` and `read_to_end`.
/// The result is named [`cfb_stream`], a function of the bytes and the path;
/// the compound-file format is not written out.
#[verifier::external_body]
fn read_stream(data: &[u8], path: &str) -> (res: Option<Vec<u8>>)
    ensures
        match res {
            Some(v) => cfb_stream(data@, path@) == Some(v@),
            None => cfb_stream(data@, path@) is None,
        },
{
    let mut file = cfb::CompoundFile::open(std::io::Cursor::new(data)).ok()?;
    let mut stream = file.open_stream(path).ok()?;
    let mut out = Vec::new();
    std::io::Read::read_to_end(&mut stream, &mut out).ok()?;
    Some(out)
}

/// Calls `String::from_utf16_lossy`. The result is named [`utf16_lossy`], a
/// function of the code units; how unpaired surrogates are replaced is not
/// written out.
#[verifier::external_body]
fn from_utf16_lossy(units: &[u16]) -> (res: String)
    ensures
        res@ == utf16_lossy(units@),
{
    String::from_utf16_lossy(units)
}

/// Little-endian UTF-16 code units of a byte string (pairs of bytes).
pub open spec fn utf16_units(b: Seq<u8>) -> Seq<u16> {
    Seq::new(b.len() / 2, |k: int| le_u16_spec(b[2 * k], b[2 * k + 1]) as u16)
}

/// The wide-string table from byte `offset` on, with `left` entries still
/// declared: each entry is a 32-bit id, a 32-bit length in code units and
/// that many UTF-16 code units; reading stops at the first entry that does
/// not fit. A later entry with the same id replaces an earlier one.
pub open spec fn wide_strings_from(d: Seq<u8>, offset: nat, left: nat, m: Map<u32, Seq<char>>) -> Map<u32, Seq<char>>
    decreases left,
{
    if left == 0 || offset + 8 > d.len() {
        m
    } else {
        let o = offset as int;
        let id = le_u32_spec(d[o], d[o + 1], d[o + 2], d[o + 3]) as u32;
        let len = le_u32_spec(d[o + 4], d[o + 5], d[o + 6], d[o + 7]);
        let start = o + 8;
        if start + 2 * len > d.len() {
            m
        } else {
            let units = utf16_units(d.subrange(start, start + 2 * len));
            wide_strings_from(d, (start + 2 * len) as nat, (left - 1) as nat, m.insert(id, utf16_lossy(units)))
        }
    }
}

/// The wide-string table of a `WideStrings6` stream: a 32-bit entry count,
/// then the entries.
pub open spec fn wide_strings_spec(d: Seq<u8>) -> Map<u32, Seq<char>> {
    if d.len() < 4 {
        Map::empty()
    } else {
        wide_strings_from(d, 4, le_u32_spec(d[0], d[1], d[2], d[3]) as nat, Map::empty())
    }
}

/// The text of each string of a map.
pub open spec fn string_map_view(m: Map<u32, String>) -> Map<u32, Seq<char>> {
    Map::new(|k: u32| m.dom().contains(k), |k: u32| m[k]@)
}

fn utf16_units_exec(b: &[u8], start: usize, n: usize) -> (res: Vec<u16>)
    requires
        start + 2 * n <= b.len(),
    ensures
        res@ == utf16_units(b@.subrange(start as int, start + 2 * n)),
{
    let ghost sub = b@.subrange(start as int, start + 2 * n);
    let mut out: Vec<u16> = Vec::new();
    let mut k: usize = 0;
    while k < n
        invariant
            k <= n,
            start + 2 * n <= b.len(),
            sub == b@.subrange(start as int, start + 2 * n),
            out@ == utf16_units(sub).take(k as int),
        decreases n - k,
    {
        let u = le_u16(b[start + 2 * k], b[start + 2 * k + 1]);
        out.push(u);
        k += 1;
        assert(out@ == utf16_units(sub).take(k as int));
    }
    assert(utf16_units(sub).take(n as int) == utf16_units(sub));
    out
}

/// Parses the wide-string table of a `WideStrings6` stream.
pub fn parse_wide_strings(data: &[u8]) -> (res: HashMap<u32, String>)
    ensures
        string_map_view(res@) == wide_strings_spec(data@),
{
    broadcast use vstd::std_specs::hash::group_hash_axioms;
    let mut strings: HashMap<u32, String> = HashMap::new();
    if data.len() < 4 {
        assert(string_map_view(strings@) =~= Map::<u32, Seq<char>>::empty());
        return strings;
    }
    let count = le_u32(data[0], data[1], data[2], data[3]);
    let mut offset: usize = 4;
    let mut left: u32 = count;
    assert(string_map_view(strings@) =~= Map::<u32, Seq<char>>::empty());
    while left > 0
        invariant
            offset <= data.len(),
            wide_strings_spec(data@) == wide_strings_from(data@, offset as nat, left as nat, string_map_view(strings@)),
        decreases left,
    {
        if data.len() - offset < 8 {
            return strings;
        }
        let id = le_u32(data[offset], data[offset + 1], data[offset + 2], data[offset + 3]);
        let len = le_u32(data[offset + 4], data[offset + 5], data[offset + 6], data[offset + 7]) as u64;
        let start = offset + 8;
        if 2 * len > (data.len() - start) as u64 {
            return strings;
        }
        let n = len as usize;
        let units = utf16_units_exec(data, start, n);
        let text = from_utf16_lossy(&units);
        let ghost tv = text@;
        let ghost before = string_map_view(strings@);
        strings.insert(id, text);
        assert(string_map_view(strings@) =~= before.insert(id, tv));
        offset = start + 2 * n;
        left -= 1;
    }
    strings
}

/// The streams of an Altium document that the board is built from.
pub struct AltiumDocument {
    /// Long strings referenced by id from component records.
    pub wide_strings: HashMap<u32, String>,
    pub board_records: Vec<TextRecord>,
    pub component_records: Vec<TextRecord>,
    pub net_records: Vec<TextRecord>,
    pub pads: Option<Vec<u8>>,
    pub tracks: Option<Vec<u8>>,
    pub arcs: Option<Vec<u8>>,
    pub vias: Option<Vec<u8>>,
    pub fills: Option<Vec<u8>>,
}

/// The text records of a stream, none when the stream is missing.
pub open spec fn stream_records(data: Seq<u8>, path: Seq<char>) -> Seq<Seq<PropV>> {
    match cfb_stream(data, path) {
        Some(s) => text_records(s, 0),
        None => seq![],
    }
}

/// The text records of each record list.
pub open spec fn record_lists_view(v: Seq<TextRecord>) -> Seq<Seq<PropV>> {
    v.map_values(|r: TextRecord| props_view(r@))
}

/// The bytes of an optional stream.
pub open spec fn opt_stream(o: Option<Vec<u8>>) -> Option<Seq<u8>> {
    match o {
        Some(v) => Some(v@),
        None => None,
    }
}

/// Text records of the stream at `path`, none when it is missing.
fn read_text_records(data: &[u8], path: &str) -> (res: Vec<TextRecord>)
    ensures
        record_lists_view(res@) == stream_records(data@, path@),
{
    match read_stream(data, path) {
        Some(s) => parse_text_record_stream(&s),
        None => {
            let v: Vec<TextRecord> = Vec::new();
            assert(record_lists_view(v@) =~= seq![]);
            v
        },
    }
}

/// Opens an Altium `.PcbDoc` compound document and reads the streams the
/// board is built from. Bytes that are not a compound document are refused
/// with the reader's message.
pub fn read_altium_document(data: &[u8]) -> (res: Result<AltiumDocument, ExtractError>)
    ensures
        match cfb_open_failure(data@) {
            Some(m) => res matches Err(ExtractError::ParseError(e)) && e@ == "Not a valid OLE2/CFB file: "@ + m,
            None => res matches Ok(doc) && {
                &&& string_map_view(doc.wide_strings@) == match cfb_stream(data@, "/WideStrings6/Data"@) {
                    Some(s) => wide_strings_spec(s),
                    None => Map::empty(),
                }
                &&& record_lists_view(doc.board_records@) == stream_records(data@, "/Board6/Data"@)
                &&& record_lists_view(doc.component_records@) == stream_records(data@, "/Components6/Data"@)
                &&& record_lists_view(doc.net_records@) == stream_records(data@, "/Nets6/Data"@)
                &&& opt_stream(doc.pads) == cfb_stream(data@, "/Pads6/Data"@)
                &&& opt_stream(doc.tracks) == cfb_stream(data@, "/Tracks6/Data"@)
                &&& opt_stream(doc.arcs) == cfb_stream(data@, "/Arcs6/Data"@)
                &&& opt_stream(doc.vias) == cfb_stream(data@, "/Vias6/Data"@)
                &&& opt_stream(doc.fills) == cfb_stream(data@, "/Fills6/Data"@)
            },
        },
{
    broadcast use vstd::std_specs::hash::group_hash_axioms;
    if let Some(m) = open_failure(data) {
        let mut e = to_string("Not a valid OLE2/CFB file: ");
        crate::text::push_str(&mut e, m.as_str());
        return Err(ExtractError::ParseError(e));
    }
    let wide_strings = match read_stream(data, "/WideStrings6/Data") {
        Some(s) => parse_wide_strings(&s),
        None => {
            let m: HashMap<u32, String> = HashMap::new();
            assert(string_map_view(m@) =~= Map::<u32, Seq<char>>::empty());
            m
        },
    };
    let board_records = read_text_records(data, "/Board6/Data");
    let component_records = read_text_records(data, "/Components6/Data");
    let net_records = read_text_records(data, "/Nets6/Data");
    let pads = read_stream(data, "/Pads6/Data");
    let tracks = read_stream(data, "/Tracks6/Data");
    let arcs = read_stream(data, "/Arcs6/Data");
    let vias = read_stream(data, "/Vias6/Data");
    let fills = read_stream(data, "/Fills6/Data");
    Ok(AltiumDocument {
        wide_strings,
        board_records,
        component_records,
        net_records,
        pads,
        tracks,
        arcs,
        vias,
        fills,
    })
}

} // verus!
