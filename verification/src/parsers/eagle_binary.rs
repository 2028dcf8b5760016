//! Structure of pre-6.0 Eagle binary `.brd` files: fixed 24-byte records that
//! form a section tree in pre-order, followed by a table of long strings.
pub mod board;
pub mod footprint;

use vstd::prelude::*;

use crate::bytes::{le_i32, le_u16, le_u16_spec, le_u32, le_u32_spec, signed32};
use crate::error::ExtractError;
use crate::text::{decimal, decimal_chars, from_utf8_lossy, push_chars, slice_bytes, to_string, utf8_lossy};

verus! {

pub const SEC_START: u8 = 0x10;
pub const SEC_LIBRARY: u8 = 0x15;
pub const SEC_PACKAGES: u8 = 0x19;
pub const SEC_BOARD: u8 = 0x1b;
pub const SEC_BOARD_NET: u8 = 0x1c;
pub const SEC_PACKAGE: u8 = 0x1e;
pub const SEC_POLYGON: u8 = 0x21;
pub const SEC_BOARD_PACKAGE: u8 = 0x2e;

/// Size of every section record.
pub const RECORD_SIZE: usize = 24;

/// Inline-string overflow marker.
pub const STRING_OVERFLOW: u8 = 0x7f;

/// One fixed-size section record.
#[derive(Debug, Clone, Copy)]
pub struct RawRecord {
    pub data: [u8; 24],
}

/// The bytes of `s` before its first zero byte.
pub open spec fn until_nul(s: Seq<u8>) -> Seq<u8>
    decreases s.len(),
{
    if s.len() == 0 || s[0] == 0 {
        seq![]
    } else {
        seq![s[0]] + until_nul(s.drop_first())
    }
}

impl RawRecord {
    pub fn sec_type(&self) -> (res: u8)
        ensures
            res == self.data@[0],
    {
        self.data[0]
    }

    pub fn u8_at(&self, offset: usize) -> (res: u8)
        requires
            offset < RECORD_SIZE,
        ensures
            res == self.data@[offset as int],
    {
        self.data[offset]
    }

    pub fn u16_at(&self, offset: usize) -> (res: u16)
        requires
            offset + 2 <= RECORD_SIZE,
        ensures
            res as int == le_u16_spec(self.data@[offset as int], self.data@[offset + 1]),
    {
        le_u16(self.data[offset], self.data[offset + 1])
    }

    pub fn i32_at(&self, offset: usize) -> (res: i32)
        requires
            offset + 4 <= RECORD_SIZE,
        ensures
            res as int == signed32(le_u32_spec(self.data@[offset as int], self.data@[offset + 1], self.data@[offset + 2], self.data@[offset + 3])),
    {
        le_i32(self.data[offset], self.data[offset + 1], self.data[offset + 2], self.data[offset + 3])
    }

    pub fn u32_at(&self, offset: usize) -> (res: u32)
        requires
            offset + 4 <= RECORD_SIZE,
        ensures
            res as int == le_u32_spec(self.data@[offset as int], self.data@[offset + 1], self.data@[offset + 2], self.data@[offset + 3]),
    {
        le_u32(self.data[offset], self.data[offset + 1], self.data[offset + 2], self.data[offset + 3])
    }

    /// Read an inline string field, returning None if it overflows to the string table.
    pub fn inline_string(&self, offset: usize, len: usize) -> (res: Option<String>)
        requires
            offset < RECORD_SIZE,
            offset + len <= RECORD_SIZE,
        ensures
            self.data@[offset as int] == STRING_OVERFLOW ==> res is None,
            self.data@[offset as int] != STRING_OVERFLOW ==> (res matches Some(s) && s@ == utf8_lossy(
                until_nul(self.data@.subrange(offset as int, offset + len)),
            )),
    {
        if self.data[offset] == STRING_OVERFLOW {
            None
        } else {
            let ghost field = self.data@.subrange(offset as int, (offset + len) as int);
            let mut bytes: Vec<u8> = Vec::new();
            let mut i: usize = 0;
            assert(field.skip(0) =~= field);
            assert(bytes@ + until_nul(field) =~= until_nul(field));
            while i < len && self.data[offset + i] != 0
                invariant
                    offset + len <= RECORD_SIZE,
                    i <= len,
                    field == self.data@.subrange(offset as int, (offset + len) as int),
                    until_nul(field) == bytes@ + until_nul(field.skip(i as int)),
                decreases len - i,
            {
                proof {
                    let rest = field.skip(i as int);
                    assert(rest[0] == self.data@[offset + i]);
                    assert(rest.drop_first() =~= field.skip(i + 1));
                    assert(until_nul(rest) == seq![rest[0]] + until_nul(rest.drop_first()));
                    vstd::seq_lib::lemma_concat_associative(bytes@, seq![rest[0]], until_nul(field.skip(i + 1)));
                }
                bytes.push(self.data[offset + i]);
                i += 1;
            }
            proof {
                let rest = field.skip(i as int);
                if i < len {
                    assert(rest[0] == 0);
                }
                assert(until_nul(rest) =~= seq![]);
                assert(bytes@ + Seq::<u8>::empty() =~= bytes@);
            }
            Some(from_utf8_lossy(bytes.as_slice()))
        }
    }
}

/// The characters of each string.
pub open spec fn strings_view(v: Seq<String>) -> Seq<Seq<char>> {
    v.map_values(|s: String| s@)
}

/// Parsed section tree node.
#[derive(Debug)]
pub struct Section {
    pub record: RawRecord,
    pub children: Vec<Section>,
}

// ───────────────────────────── specifications ─────────────────────────────

/// Number of flat records each subsection group of a record spans.
pub open spec fn counts_spec(d: Seq<u8>) -> Seq<int> {
    let t = d[0];
    let u16_2 = le_u16_spec(d[2], d[3]);
    if t == SEC_START {
        let numsecs = le_u32_spec(d[4], d[5], d[6], d[7]);
        let remaining = if numsecs >= u16_2 + 1 { numsecs - (u16_2 + 1) } else { 0 };
        seq![u16_2, remaining]
    } else if t == SEC_BOARD {
        seq![
            le_u32_spec(d[12], d[13], d[14], d[15]),
            u16_2,
            le_u32_spec(d[16], d[17], d[18], d[19]),
            le_u32_spec(d[20], d[21], d[22], d[23]),
        ]
    } else if t == SEC_PACKAGES {
        seq![le_u32_spec(d[4], d[5], d[6], d[7])]
    } else if t == SEC_LIBRARY || t == SEC_PACKAGE || t == SEC_BOARD_NET || t == SEC_BOARD_PACKAGE
        || t == SEC_POLYGON {
        seq![u16_2]
    } else {
        seq![]
    }
}

pub open spec fn sum(s: Seq<int>) -> int
    decreases s.len(),
{
    if s.len() == 0 { 0 } else { s[0] + sum(s.drop_first()) }
}

/// Flat records a section's children span, including their descendants.
pub open spec fn budget(r: RawRecord) -> int {
    sum(counts_spec(r.data@))
}

/// Number of flat records a subtree holds.
pub open spec fn size(t: Section) -> nat
    decreases t,
{
    1 + sizes(t.children@)
}

pub open spec fn sizes(cs: Seq<Section>) -> nat
    decreases cs,
{
    if cs.len() == 0 {
        0
    } else {
        size(cs[0]) + sizes(cs.drop_first())
    }
}

/// `t` is the section that parsing `records` from index `start` builds: its
/// record is `records[start]`, and its children are read one after another
/// while they have spanned fewer records than the budget and records remain.
pub open spec fn valid_section(records: Seq<RawRecord>, start: int, t: Section) -> bool
    decreases t,
{
    0 <= start < records.len() && t.record == records[start] && children_chain(
        records,
        start + 1,
        t.children@,
        budget(t.record),
        0,
        true,
    )
}

/// Children `cs` read from index `pos` after `consumed` records of the budget
/// `b`; when `done`, reading stopped after the last of them.
pub open spec fn children_chain(records: Seq<RawRecord>, pos: int, cs: Seq<Section>, b: int, consumed: int, done: bool) -> bool
    decreases cs,
{
    if cs.len() == 0 {
        done ==> !(consumed < b && pos < records.len())
    } else {
        &&& consumed < b
        &&& pos < records.len()
        &&& valid_section(records, pos, cs[0])
        &&& children_chain(records, pos + size(cs[0]), cs.drop_first(), b, consumed + size(cs[0]), done)
    }
}

/// Pre-order list of the sections of a tree.
pub open spec fn flatten(t: Section) -> Seq<Section>
    decreases t,
{
    seq![t] + flatten_all(t.children@)
}

pub open spec fn flatten_all(cs: Seq<Section>) -> Seq<Section>
    decreases cs,
{
    if cs.len() == 0 {
        seq![]
    } else {
        flatten(cs[0]) + flatten_all(cs.drop_first())
    }
}

/// First section of the given type in `s`.
pub open spec fn first_of_type(s: Seq<Section>, sec_type: u8) -> Option<Section>
    decreases s.len(),
{
    if s.len() == 0 {
        None
    } else if s[0].record.data@[0] == sec_type {
        Some(s[0])
    } else {
        first_of_type(s.drop_first(), sec_type)
    }
}

/// The sections of the given type in `s`, in order.
pub open spec fn all_of_type(s: Seq<Section>, sec_type: u8) -> Seq<Section> {
    s.filter(|x: Section| x.record.data@[0] == sec_type)
}

/// The pieces of `s` between zero bytes, `cur` being the piece read so far.
pub open spec fn split_nul(s: Seq<u8>, cur: Seq<u8>) -> Seq<Seq<u8>>
    decreases s.len(),
{
    if s.len() == 0 {
        seq![cur]
    } else if s[0] == 0 {
        seq![cur] + split_nul(s.drop_first(), seq![])
    } else {
        split_nul(s.drop_first(), cur.push(s[0]))
    }
}

pub open spec fn string_sentinel(d: Seq<u8>, offset: int) -> bool {
    d[offset] == 0x13 && d[offset + 1] == 0x12 && d[offset + 2] == 0x99 && d[offset + 3] == 0x19
}

/// The strings of the string table that starts at `offset`.
pub open spec fn string_table(d: Seq<u8>, offset: int) -> Seq<Seq<char>> {
    if offset + 8 > d.len() || !string_sentinel(d, offset) {
        seq![]
    } else {
        let size = le_u32_spec(d[offset + 4], d[offset + 5], d[offset + 6], d[offset + 7]);
        let start = offset + 8;
        let end = if start + size < d.len() { start + size } else { d.len() as int };
        split_nul(d.subrange(start, end), seq![]).map_values(|p: Seq<u8>| utf8_lossy(p))
    }
}

// ───────────────────────────── lemmas ─────────────────────────────

proof fn lemma_sizes_push(cs: Seq<Section>, x: Section)
    ensures
        sizes(cs.push(x)) == sizes(cs) + size(x),
    decreases cs.len(),
{
    if cs.len() == 0 {
        assert(cs.push(x).drop_first() =~= Seq::<Section>::empty());
        assert(cs.push(x)[0] == x);
        assert(sizes(cs.push(x).drop_first()) == 0);
    } else {
        assert(cs.push(x).drop_first() =~= cs.drop_first().push(x));
        assert(cs.push(x)[0] == cs[0]);
        lemma_sizes_push(cs.drop_first(), x);
    }
}

proof fn lemma_chain_push(records: Seq<RawRecord>, pos: int, cs: Seq<Section>, b: int, consumed: int, x: Section)
    requires
        children_chain(records, pos, cs, b, consumed, false),
        consumed + sizes(cs) < b,
        pos + sizes(cs) < records.len(),
        valid_section(records, pos + sizes(cs), x),
    ensures
        children_chain(records, pos, cs.push(x), b, consumed, false),
    decreases cs.len(),
{
    if cs.len() == 0 {
        assert(cs.push(x).drop_first() =~= Seq::<Section>::empty());
        assert(cs.push(x)[0] == x);
        assert(children_chain(records, pos + size(x), cs.push(x).drop_first(), b, consumed + size(x), false));
    } else {
        assert(cs.push(x).drop_first() =~= cs.drop_first().push(x));
        assert(cs.push(x)[0] == cs[0]);
        lemma_chain_push(records, pos + size(cs[0]), cs.drop_first(), b, consumed + size(cs[0]), x);
    }
}

proof fn lemma_chain_close(records: Seq<RawRecord>, pos: int, cs: Seq<Section>, b: int, consumed: int)
    requires
        children_chain(records, pos, cs, b, consumed, false),
        !(consumed + sizes(cs) < b && pos + sizes(cs) < records.len()),
    ensures
        children_chain(records, pos, cs, b, consumed, true),
    decreases cs.len(),
{
    if cs.len() > 0 {
        lemma_chain_close(records, pos + size(cs[0]), cs.drop_first(), b, consumed + size(cs[0]));
    }
}

proof fn lemma_valid_bound(records: Seq<RawRecord>, start: int, t: Section)
    requires
        valid_section(records, start, t),
    ensures
        start + size(t) <= records.len(),
    decreases t,
{
    lemma_chain_bound(records, start + 1, t.children@, budget(t.record), 0, true);
}

proof fn lemma_chain_bound(records: Seq<RawRecord>, pos: int, cs: Seq<Section>, b: int, consumed: int, done: bool)
    requires
        children_chain(records, pos, cs, b, consumed, done),
        pos <= records.len(),
    ensures
        pos + sizes(cs) <= records.len(),
    decreases cs,
{
    if cs.len() > 0 {
        lemma_valid_bound(records, pos, cs[0]);
        lemma_chain_bound(records, pos + size(cs[0]), cs.drop_first(), b, consumed + size(cs[0]), done);
    }
}

proof fn lemma_flatten_all_push(cs: Seq<Section>, x: Section)
    ensures
        flatten_all(cs.push(x)) == flatten_all(cs) + flatten(x),
    decreases cs.len(),
{
    if cs.len() == 0 {
        assert(cs.push(x).drop_first() =~= Seq::<Section>::empty());
        assert(cs.push(x)[0] == x);
        assert(flatten_all(cs.push(x).drop_first()) == Seq::<Section>::empty());
        assert(flatten(x) + Seq::<Section>::empty() =~= flatten(x));
        assert(Seq::<Section>::empty() + flatten(x) =~= flatten(x));
    } else {
        assert(cs.push(x).drop_first() =~= cs.drop_first().push(x));
        assert(cs.push(x)[0] == cs[0]);
        lemma_flatten_all_push(cs.drop_first(), x);
        vstd::seq_lib::lemma_concat_associative(flatten(cs[0]), flatten_all(cs.drop_first()), flatten(x));
    }
}

proof fn lemma_first_of_type_concat(a: Seq<Section>, b: Seq<Section>, t: u8)
    ensures
        first_of_type(a + b, t) == (match first_of_type(a, t) {
            Some(s) => Some(s),
            None => first_of_type(b, t),
        }),
    decreases a.len(),
{
    if a.len() == 0 {
        assert(a + b =~= b);
    } else {
        assert((a + b).drop_first() =~= a.drop_first() + b);
        lemma_first_of_type_concat(a.drop_first(), b, t);
    }
}

// ───────────────────────────── exec ─────────────────────────────

/// Whether the data starts like an Eagle binary board: a whole record whose
/// section type is the start section.
pub fn is_eagle_binary(data: &[u8]) -> (res: bool)
    ensures
        res == (data@.len() >= RECORD_SIZE && data@[0] == SEC_START),
{
    data.len() >= RECORD_SIZE && data[0] == SEC_START
}

fn parse_error(prefix: &str, n: u64) -> (res: ExtractError)
    ensures
        res matches ExtractError::ParseError(m) && m@ == prefix@ + decimal(n as nat),
{
    let mut m = to_string(prefix);
    let d = decimal_chars(n);
    push_chars(&mut m, &d);
    ExtractError::ParseError(m)
}

/// Read the record at byte `offset`.
pub fn read_record(data: &[u8], offset: usize) -> (res: Result<RawRecord, ExtractError>)
    requires
        offset <= usize::MAX - RECORD_SIZE,
    ensures
        offset + RECORD_SIZE <= data@.len() ==> (res matches Ok(r) && r.data@ == data@.subrange(
            offset as int,
            offset + RECORD_SIZE,
        )),
        offset + RECORD_SIZE > data@.len() ==> (res matches Err(ExtractError::ParseError(m))
            && m@ == "Eagle binary: unexpected end of data at offset "@ + decimal(offset as nat)),
{
    if offset + RECORD_SIZE > data.len() {
        return Err(parse_error("Eagle binary: unexpected end of data at offset ", offset as u64));
    }
    let o = offset;
    let buf: [u8; 24] = [
        data[o], data[o + 1], data[o + 2], data[o + 3], data[o + 4], data[o + 5],
        data[o + 6], data[o + 7], data[o + 8], data[o + 9], data[o + 10], data[o + 11],
        data[o + 12], data[o + 13], data[o + 14], data[o + 15], data[o + 16], data[o + 17],
        data[o + 18], data[o + 19], data[o + 20], data[o + 21], data[o + 22], data[o + 23],
    ];
    assert(buf@ =~= data@.subrange(offset as int, offset + RECORD_SIZE));
    Ok(RawRecord { data: buf })
}

/// Parse the string table at byte `offset`: zero-separated strings after a
/// sentinel and a byte count.
pub fn parse_string_table(data: &[u8], offset: usize) -> (res: Result<Vec<String>, ExtractError>)
    ensures
        res matches Ok(v) && strings_view(v@) == string_table(data@, offset as int),
{
    if offset > data.len() || data.len() - offset < 8 {
        let v: Vec<String> = Vec::new();
        assert(strings_view(v@) =~= string_table(data@, offset as int));
        return Ok(v);
    }
    // Check sentinel
    if !(data[offset] == 0x13 && data[offset + 1] == 0x12 && data[offset + 2] == 0x99 && data[offset + 3] == 0x19) {
        let v: Vec<String> = Vec::new();
        assert(strings_view(v@) =~= string_table(data@, offset as int));
        return Ok(v);
    }
    let size = le_u32(data[offset + 4], data[offset + 5], data[offset + 6], data[offset + 7]) as usize;
    let str_start = offset + 8;
    let str_end = if (size as u64) < ((data.len() - str_start) as u64) { str_start + size } else { data.len() };
    let ghost piece_src = data@.subrange(str_start as int, str_end as int);
    let mut strings: Vec<String> = Vec::new();
    let mut cur: Vec<u8> = Vec::new();
    let mut i = str_start;
    assert(data@.subrange(str_start as int, str_end as int).skip(0) =~= piece_src);
    while i < str_end
        invariant
            str_start <= i <= str_end <= data@.len(),
            piece_src == data@.subrange(str_start as int, str_end as int),
            strings_view(strings@) + split_nul(data@.subrange(i as int, str_end as int), cur@).map_values(
                |p: Seq<u8>| utf8_lossy(p),
            ) == split_nul(piece_src, seq![]).map_values(|p: Seq<u8>| utf8_lossy(p)),
        decreases str_end - i,
    {
        let ghost rest = data@.subrange(i as int, str_end as int);
        assert(rest.drop_first() =~= data@.subrange(i + 1, str_end as int));
        assert(rest[0] == data@[i as int]);
        if data[i] == 0 {
            let s = from_utf8_lossy(cur.as_slice());
            let ghost old_strings = strings@;
            let ghost old_cur = cur@;
            strings.push(s);
            cur = Vec::new();
            proof {
                let f = |p: Seq<u8>| utf8_lossy(p);
                assert(split_nul(rest, old_cur) == seq![old_cur] + split_nul(rest.drop_first(), seq![]));
                assert((seq![old_cur] + split_nul(rest.drop_first(), seq![])).map_values(f)
                    =~= seq![utf8_lossy(old_cur)] + split_nul(rest.drop_first(), seq![]).map_values(f));
                assert(strings_view(strings@) =~= strings_view(old_strings).push(utf8_lossy(old_cur)));
                vstd::seq_lib::lemma_concat_associative(strings_view(old_strings), seq![utf8_lossy(old_cur)], split_nul(rest.drop_first(), seq![]).map_values(f));
                assert(strings_view(old_strings) + seq![utf8_lossy(old_cur)] =~= strings_view(old_strings).push(utf8_lossy(old_cur)));
            }
        } else {
            cur.push(data[i]);
        }
        i += 1;
    }
    let s = from_utf8_lossy(cur.as_slice());
    let ghost old_strings = strings@;
    strings.push(s);
    proof {
        let f = |p: Seq<u8>| utf8_lossy(p);
        assert(data@.subrange(i as int, str_end as int) =~= Seq::<u8>::empty());
        assert(seq![cur@].map_values(f) =~= seq![utf8_lossy(cur@)]);
        assert(strings_view(strings@) =~= strings_view(old_strings) + seq![utf8_lossy(cur@)]);
    }
    Ok(strings)
}

/// Record counts of the subsection groups that follow a section record.
pub fn subsection_counts(rec: &RawRecord) -> (res: Vec<usize>)
    ensures
        res@.map_values(|c: usize| c as int) == counts_spec(rec.data@),
        res@.len() <= 4,
        forall|i: int| 0 <= i < res@.len() ==> res@[i] <= 0xffff_ffff,
{
    let t = rec.sec_type();
    let mut v: Vec<usize> = Vec::new();
    if t == SEC_START {
        let subsecs = rec.u16_at(2) as usize;
        let numsecs = rec.u32_at(4) as usize;
        // subsections layout: [settings subsecs, remaining subsecs]
        let remaining = if numsecs >= subsecs + 1 { numsecs - (subsecs + 1) } else { 0 };
        v.push(subsecs);
        v.push(remaining);
    } else if t == SEC_BOARD {
        let draw_subs = rec.u16_at(2) as usize;
        let def_subs = rec.u32_at(12) as usize;
        let pac_subs = rec.u32_at(16) as usize;
        let net_subs = rec.u32_at(20) as usize;
        v.push(def_subs);
        v.push(draw_subs);
        v.push(pac_subs);
        v.push(net_subs);
    } else if t == SEC_PACKAGES {
        v.push(rec.u32_at(4) as usize);
    } else if t == SEC_LIBRARY || t == SEC_PACKAGE || t == SEC_BOARD_NET || t == SEC_BOARD_PACKAGE
        || t == SEC_POLYGON {
        // Polygon has subsections (its vertices are children)
        v.push(rec.u16_at(2) as usize);
    }
    assert(v@.map_values(|c: usize| c as int) =~= counts_spec(rec.data@));
    v
}

fn total_budget(counts: &Vec<usize>) -> (res: u64)
    requires
        counts@.len() <= 4,
        forall|i: int| 0 <= i < counts@.len() ==> counts@[i] <= 0xffff_ffff,
    ensures
        res as int == sum(counts@.map_values(|c: usize| c as int)),
{
    let ghost cs = counts@.map_values(|c: usize| c as int);
    let mut total: u64 = 0;
    let mut i: usize = counts.len();
    assert(cs.skip(counts.len() as int) =~= Seq::<int>::empty());
    while i > 0
        invariant
            i <= counts@.len() <= 4,
            cs == counts@.map_values(|c: usize| c as int),
            total as int == sum(cs.skip(i as int)),
            total <= (counts@.len() - i) * 0xffff_ffff,
            forall|j: int| 0 <= j < counts@.len() ==> counts@[j] <= 0xffff_ffff,
        decreases i,
    {
        i -= 1;
        assert(cs.skip(i as int).drop_first() =~= cs.skip(i + 1));
        assert(cs.skip(i as int)[0] == counts@[i as int] as int);
        total = total + counts[i] as u64;
    }
    assert(cs.skip(0) =~= cs);
    total
}


/// Parse one section and its descendants starting at record `*idx`,
/// advancing `*idx` past them.
pub fn parse_section_recursive(records: &[RawRecord], idx: &mut usize) -> (res: Result<Section, ExtractError>)
    ensures
        *old(idx) >= records@.len() ==> (res matches Err(ExtractError::ParseError(m))
            && m@ == "Eagle binary: unexpected end of sections"@ && *final(idx) == *old(idx)),
        *old(idx) < records@.len() ==> (res matches Ok(t) && valid_section(records@, *old(idx) as int, t)
            && *final(idx) == *old(idx) + size(t)),
    decreases records@.len() - *old(idx),
{
    if *idx >= records.len() {
        return Err(ExtractError::ParseError(to_string("Eagle binary: unexpected end of sections")));
    }
    let start = *idx;
    let record = records[start];
    *idx = start + 1;

    let counts = subsection_counts(&record);
    // Budget = total flat records in the children portion (including descendants).
    // Each child consumes 1+ records from the budget.
    let budget_total = total_budget(&counts);

    let mut children: Vec<Section> = Vec::new();
    let mut consumed: u64 = 0;
    while consumed < budget_total && *idx < records.len()
        invariant
            start < records@.len(),
            start == *old(idx),
            *idx <= records@.len(),
            *idx == start + 1 + sizes(children@),
            consumed == sizes(children@),
            budget_total as int == budget(record),
            record == records@[start as int],
            children_chain(records@, start + 1, children@, budget(record), 0, false),
        decreases records@.len() - *idx,
    {
        let before = *idx;
        let child = match parse_section_recursive(records, idx) {
            Ok(c) => c,
            Err(e) => return Err(e),
        };
        proof {
            lemma_valid_bound(records@, before as int, child);
            lemma_chain_push(records@, start + 1, children@, budget(record), 0, child);
            lemma_sizes_push(children@, child);
        }
        consumed = consumed + (*idx - before) as u64;
        children.push(child);
    }
    proof {
        lemma_chain_close(records@, start + 1, children@, budget(record), 0);
    }
    let t = Section { record, children };
    assert(size(t) == 1 + sizes(children@));
    Ok(t)
}

/// Build the section tree from the flat record list.
pub fn build_section_tree(records: &[RawRecord]) -> (res: Result<Section, ExtractError>)
    ensures
        records@.len() == 0 ==> (res matches Err(ExtractError::ParseError(m)) && m@ == "Eagle binary: no records"@),
        records@.len() > 0 ==> (res matches Ok(t) && valid_section(records@, 0, t)),
{
    if records.len() == 0 {
        return Err(ExtractError::ParseError(to_string("Eagle binary: no records")));
    }
    let mut idx: usize = 0;
    parse_section_recursive(records, &mut idx)
}

/// First section of the given type in pre-order.
pub fn find_section(tree: &Section, sec_type: u8) -> (res: Option<&Section>)
    ensures
        res matches Some(s) ==> first_of_type(flatten(*tree), sec_type) == Some(*s),
        res is None ==> first_of_type(flatten(*tree), sec_type) is None,
    decreases tree,
{
    if tree.record.sec_type() == sec_type {
        return Some(tree);
    }
    assert(seq![*tree].drop_first() =~= Seq::<Section>::empty());
    assert(first_of_type(seq![*tree].drop_first(), sec_type) is None);
    assert(seq![*tree][0] == *tree);
    assert(first_of_type(seq![*tree], sec_type) is None);
    let mut i: usize = 0;
    assert(flatten_all(tree.children@.take(0)) =~= Seq::<Section>::empty());
    while i < tree.children.len()
        invariant
            i <= tree.children@.len(),
            tree.record.data@[0] != sec_type,
            first_of_type(seq![*tree], sec_type) is None,
            first_of_type(flatten_all(tree.children@.take(i as int)), sec_type) is None,
        decreases tree.children@.len() - i,
    {
        let child = &tree.children[i];
        proof {
            assert(tree.children@.take(i + 1) =~= tree.children@.take(i as int).push(tree.children@[i as int]));
            lemma_flatten_all_push(tree.children@.take(i as int), tree.children@[i as int]);
            lemma_first_of_type_concat(flatten_all(tree.children@.take(i as int)), flatten(*child), sec_type);
        }
        if let Some(found) = find_section(child, sec_type) {
            proof {
                lemma_flatten_all_take_concat(tree.children@, i as int);
                lemma_first_of_type_concat(flatten_all(tree.children@.take(i + 1)), flatten_all(tree.children@.skip(i + 1)), sec_type);
                lemma_first_of_type_concat(seq![*tree], flatten_all(tree.children@), sec_type);
            }
            return Some(found);
        }
        i += 1;
    }
    proof {
        assert(tree.children@.take(i as int) =~= tree.children@);
        lemma_first_of_type_concat(seq![*tree], flatten_all(tree.children@), sec_type);
    }
    None
}

proof fn lemma_flatten_all_take_concat(cs: Seq<Section>, i: int)
    requires
        0 <= i < cs.len(),
    ensures
        flatten_all(cs) == flatten_all(cs.take(i + 1)) + flatten_all(cs.skip(i + 1)),
    decreases cs.len(),
{
    if i == 0 {
        assert(cs.take(1).drop_first() =~= Seq::<Section>::empty());
        assert(cs.take(1)[0] == cs[0]);
        assert(flatten_all(cs.take(1).drop_first()) == Seq::<Section>::empty());
        assert(flatten(cs[0]) + Seq::<Section>::empty() =~= flatten(cs[0]));
        assert(flatten_all(cs.take(1)) =~= flatten(cs[0]));
        assert(cs.skip(1) =~= cs.drop_first());
    } else {
        lemma_flatten_all_take_concat(cs.drop_first(), i - 1);
        assert(cs.take(i + 1).drop_first() =~= cs.drop_first().take(i));
        assert(cs.take(i + 1)[0] == cs[0]);
        assert(cs.skip(i + 1) =~= cs.drop_first().skip(i));
        vstd::seq_lib::lemma_concat_associative(flatten(cs[0]), flatten_all(cs.drop_first().take(i)), flatten_all(cs.drop_first().skip(i)));
    }
}

/// The sections a list of references points to.
pub open spec fn deref_all(s: Seq<&Section>) -> Seq<Section> {
    s.map_values(|r: &Section| *r)
}

/// Appends, in pre-order, every section of the given type in `tree`.
pub fn collect_sections<'a>(tree: &'a Section, sec_type: u8, result: &mut Vec<&'a Section>)
    ensures
        deref_all(final(result)@) == deref_all(old(result)@) + all_of_type(flatten(*tree), sec_type),
    decreases tree,
{
    let ghost start = deref_all(result@);
    let ghost old_r = result@;
    if tree.record.sec_type() == sec_type {
        result.push(tree);
        assert(deref_all(result@) =~= start.push(*tree));
    }
    let ghost after_self = deref_all(result@);
    assert(after_self == start + all_of_type(seq![*tree], sec_type)) by {
        reveal_with_fuel(Seq::filter, 2);
        assert(seq![*tree].drop_last() =~= Seq::<Section>::empty());
        if tree.record.data@[0] == sec_type {
            assert(all_of_type(seq![*tree], sec_type) =~= seq![*tree]);
        } else {
            assert(all_of_type(seq![*tree], sec_type) =~= Seq::<Section>::empty());
            assert(result@ == old_r);
        }
        assert(start + Seq::<Section>::empty() =~= start);
    }
    let mut i: usize = 0;
    assert(flatten_all(tree.children@.take(0)) =~= Seq::<Section>::empty());
    assert(all_of_type(Seq::<Section>::empty(), sec_type) =~= Seq::<Section>::empty()) by {
        reveal_with_fuel(Seq::filter, 1);
    }
    assert(after_self + Seq::<Section>::empty() =~= after_self);
    while i < tree.children.len()
        invariant
            i <= tree.children@.len(),
            deref_all(result@) == after_self + all_of_type(flatten_all(tree.children@.take(i as int)), sec_type),
        decreases tree.children@.len() - i,
    {
        let child = &tree.children[i];
        collect_sections(child, sec_type, result);
        proof {
            assert(tree.children@.take(i + 1) =~= tree.children@.take(i as int).push(tree.children@[i as int]));
            lemma_flatten_all_push(tree.children@.take(i as int), tree.children@[i as int]);
            Seq::filter_distributes_over_add(flatten_all(tree.children@.take(i as int)), flatten(*child), |x: Section| x.record.data@[0] == sec_type);
            vstd::seq_lib::lemma_concat_associative(after_self, all_of_type(flatten_all(tree.children@.take(i as int)), sec_type), all_of_type(flatten(*child), sec_type));
        }
        i += 1;
    }
    proof {
        assert(tree.children@.take(i as int) =~= tree.children@);
        Seq::filter_distributes_over_add(seq![*tree], flatten_all(tree.children@), |x: Section| x.record.data@[0] == sec_type);
        vstd::seq_lib::lemma_concat_associative(start, all_of_type(seq![*tree], sec_type), all_of_type(flatten_all(tree.children@), sec_type));
    }
}

/// Every section of the given type in `tree`, in pre-order.
pub fn find_all_sections(tree: &Section, sec_type: u8) -> (res: Vec<&Section>)
    ensures
        deref_all(res@) == all_of_type(flatten(*tree), sec_type),
{
    let mut result = Vec::new();
    assert(deref_all(result@) =~= Seq::<Section>::empty());
    collect_sections(tree, sec_type, &mut result);
    assert(Seq::<Section>::empty() + all_of_type(flatten(*tree), sec_type) =~= all_of_type(flatten(*tree), sec_type));
    result
}

/// A string field: inline when it fits, otherwise the next entry of the
/// string table (or empty when the table is exhausted).
pub fn resolve_string(rec: &RawRecord, offset: usize, len: usize, strings: &[String], string_idx: &mut usize) -> (res: String)
    requires
        offset < RECORD_SIZE,
        offset + len <= RECORD_SIZE,
    ensures
        rec.data@[offset as int] != STRING_OVERFLOW ==> res@ == utf8_lossy(until_nul(rec.data@.subrange(offset as int, offset + len)))
            && *final(string_idx) == *old(string_idx),
        rec.data@[offset as int] == STRING_OVERFLOW && *old(string_idx) < strings@.len() ==> res@ == strings@[*old(string_idx) as int]@
            && *final(string_idx) == *old(string_idx) + 1,
        rec.data@[offset as int] == STRING_OVERFLOW && *old(string_idx) >= strings@.len() ==> res@.len() == 0
            && *final(string_idx) == *old(string_idx),
{
    match rec.inline_string(offset, len) {
        Some(s) => s,
        None => {
            // String overflows to the string table
            if *string_idx < strings.len() {
                let s = strings[*string_idx].clone();
                *string_idx += 1;
                s
            } else {
                String::new()
            }
        },
    }
}

/// Board-level category of an Eagle layer number.
#[derive(Debug, Clone, Copy, PartialEq, Eq)]
pub enum LayerCat {
    CopperF,
    CopperB,
    Edge,
    SilkF,
    SilkB,
    FabF,
    FabB,
    Other,
}

pub open spec fn layer_cat_spec(layer: int) -> LayerCat {
    if layer == 1 { LayerCat::CopperF }
    else if layer == 16 { LayerCat::CopperB }
    else if layer == 20 { LayerCat::Edge }
    else if layer == 21 || layer == 25 { LayerCat::SilkF }
    else if layer == 22 || layer == 26 { LayerCat::SilkB }
    else if layer == 27 || layer == 51 { LayerCat::FabF }
    else if layer == 28 || layer == 52 { LayerCat::FabB }
    else { LayerCat::Other }
}

/// Mirrored Eagle layer: top and bottom counterparts swap.
pub open spec fn mirror_layer_spec(layer: int) -> int {
    if layer == 1 { 16 }
    else if layer == 16 { 1 }
    else if layer == 21 { 22 }
    else if layer == 22 { 21 }
    else if layer == 25 { 26 }
    else if layer == 26 { 25 }
    else if layer == 27 { 28 }
    else if layer == 28 { 27 }
    else if layer == 51 { 52 }
    else if layer == 52 { 51 }
    else { layer }
}

/// Side letter of an Eagle layer: "B" for the bottom layers, "F" otherwise.
pub open spec fn layer_side_spec(layer: int) -> Seq<char> {
    if layer == 16 || layer == 22 || layer == 26 || layer == 28 || layer == 52 { "B"@ } else { "F"@ }
}

pub fn categorize_layer(layer: u8) -> (res: LayerCat)
    ensures
        res == layer_cat_spec(layer as int),
{
    match layer {
        1 => LayerCat::CopperF,
        16 => LayerCat::CopperB,
        20 => LayerCat::Edge,
        21 | 25 => LayerCat::SilkF,
        22 | 26 => LayerCat::SilkB,
        27 | 51 => LayerCat::FabF,
        28 | 52 => LayerCat::FabB,
        _ => LayerCat::Other,
    }
}

pub fn layer_side(layer: u8) -> (res: &'static str)
    ensures
        res@ == layer_side_spec(layer as int),
{
    match layer {
        1 | 21 | 25 | 27 | 51 => "F",
        16 | 22 | 26 | 28 | 52 => "B",
        _ => "F",
    }
}

/// Side of a layer for a mirrored (bottom-placed) part: copper swaps sides.
pub fn mirror_layer_side(layer: u8) -> (res: &'static str)
    ensures
        layer == 1 ==> res@ == "B"@,
        layer == 16 ==> res@ == "F"@,
        layer != 1 && layer != 16 ==> res@ == layer_side_spec(layer as int),
{
    match layer {
        1 => "B",
        16 => "F",
        _ => layer_side(layer),
    }
}

pub fn mirror_eagle_layer(layer: u8) -> (res: u8)
    ensures
        res as int == mirror_layer_spec(layer as int),
{
    match layer {
        1 => 16,
        16 => 1,
        21 => 22,
        22 => 21,
        25 => 26,
        26 => 25,
        27 => 28,
        28 => 27,
        51 => 52,
        52 => 51,
        _ => layer,
    }
}

/// Mirroring a layer twice gives the layer back, and a mirrored layer's
/// category is the counterpart on the other side.
pub proof fn lemma_mirror_layer_involution(layer: int)
    ensures
        mirror_layer_spec(mirror_layer_spec(layer)) == layer,
        layer_cat_spec(layer) == LayerCat::CopperF <==> layer_cat_spec(mirror_layer_spec(layer)) == LayerCat::CopperB,
        layer_cat_spec(layer) == LayerCat::SilkF <==> layer_cat_spec(mirror_layer_spec(layer)) == LayerCat::SilkB,
        layer_cat_spec(layer) == LayerCat::FabF <==> layer_cat_spec(mirror_layer_spec(layer)) == LayerCat::FabB,
        layer_cat_spec(layer) == LayerCat::Edge <==> layer_cat_spec(mirror_layer_spec(layer)) == LayerCat::Edge,
{
}

// ───────────────────────────── document ─────────────────────────────

/// An Eagle binary board as read from a file, before any geometry is built:
/// the section tree and the string table.
#[derive(Debug)]
pub struct BinaryBoard {
    pub tree: Section,
    pub strings: Vec<String>,
}

/// The section count a start record declares.
pub open spec fn declared_sections(data: Seq<u8>) -> nat {
    le_u32_spec(data[4], data[5], data[6], data[7]) as nat
}

/// Whether `records` are the first `n` 24-byte records of `data`.
pub open spec fn records_read(records: Seq<RawRecord>, data: Seq<u8>, n: nat) -> bool {
    &&& records.len() == n
    &&& forall|i: int| 0 <= i < n ==> (#[trigger] records[i]).data@ == data.subrange(24 * i, 24 * i + 24)
}

/// Reads an Eagle binary board: the start record, the records it declares,
/// the string table after them, and the section tree the records form.
pub fn read_binary_board(data: &[u8]) -> (res: Result<BinaryBoard, ExtractError>)
    ensures
        data@.len() < 24 ==> (res matches Err(ExtractError::ParseError(m)) && m@ == "Eagle binary: file too short"@),
        data@.len() >= 24 && data@[0] != SEC_START ==> (res matches Err(ExtractError::ParseError(m))
            && m@ == "Eagle binary: missing start section (0x10)"@),
        data@.len() >= 24 && data@[0] == SEC_START && 24 * declared_sections(data@) > data@.len() ==> (
            res matches Err(ExtractError::ParseError(m)) && m@ == "Eagle binary: section count "@
                + decimal(declared_sections(data@)) + " exceeds file size"@),
        data@.len() >= 24 && data@[0] == SEC_START && declared_sections(data@) == 0 ==> (
            res matches Err(ExtractError::ParseError(m)) && m@ == "Eagle binary: no records"@),
        data@.len() >= 24 && data@[0] == SEC_START && 0 < 24 * declared_sections(data@) <= data@.len() ==> (
            res matches Ok(b) && strings_view(b.strings@) == string_table(
                data@,
                (24 * declared_sections(data@)) as int,
            ) && exists|records: Seq<RawRecord>|
                records_read(records, data@, declared_sections(data@)) && valid_section(records, 0, b.tree)),
{
    if data.len() < RECORD_SIZE {
        return Err(ExtractError::ParseError(to_string("Eagle binary: file too short")));
    }
    if data[0] != SEC_START {
        return Err(ExtractError::ParseError(to_string("Eagle binary: missing start section (0x10)")));
    }
    let start = match read_record(data, 0) {
        Ok(r) => r,
        Err(e) => return Err(e),
    };
    let num_secs = start.u32_at(4) as u64;
    assert(num_secs == declared_sections(data@)) by {
        assert(start.data@ == data@.subrange(0, 24));
    }
    if num_secs * 24 > data.len() as u64 {
        let mut m = to_string("Eagle binary: section count ");
        let d = decimal_chars(num_secs);
        push_chars(&mut m, &d);
        crate::text::push_str(&mut m, " exceeds file size");
        return Err(ExtractError::ParseError(m));
    }
    let n = num_secs as usize;
    let mut records: Vec<RawRecord> = Vec::new();
    let mut i: usize = 0;
    while i < n
        invariant
            i <= n,
            24 * n <= data@.len(),
            records_read(records@, data@, i as nat),
        decreases n - i,
    {
        assert(i * 24 + 24 <= 24 * n) by (nonlinear_arith)
            requires
                i < n,
        ;
        assert(data@.len() == data.len());
        assert(i * 24 <= usize::MAX - 24);
        let r = match read_record(data, i * 24) {
            Ok(r) => r,
            Err(e) => return Err(e),
        };
        let ghost before = records@;
        records.push(r);
        proof {
            assert forall|k: int| 0 <= k < i + 1 implies (#[trigger] records@[k]).data@ == data@.subrange(24 * k, 24 * k + 24) by {
                if k < i {
                    assert(records@[k] == before[k]);
                }
            }
        }
        i += 1;
    }
    let strings = match parse_string_table(data, n * RECORD_SIZE) {
        Ok(s) => s,
        Err(e) => return Err(e),
    };
    let tree = match build_section_tree(&records) {
        Ok(t) => t,
        Err(e) => return Err(e),
    };
    assert((n * RECORD_SIZE) as int == 24 * declared_sections(data@));
    let board = BinaryBoard { tree, strings };
    assert(records_read(records@, data@, declared_sections(data@)) && valid_section(records@, 0, board.tree));
    Ok(board)
}

} // verus!
