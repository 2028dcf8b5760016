//! Bill of materials: components grouped by (value, footprint) and ordered by
//! reference designator in natural order (R1, R2, R10).
use vstd::prelude::*;

use crate::text::{
    chars_of, decimal, decimal_chars, eq_str, is_digit, parse_unsigned, parse_unsigned_exec, slice_chars,
    starts_with, starts_with_str, string_from_chars, to_string,
};
use crate::types::{Component, Side};

verus! {

/// Configuration for BOM generation.
#[derive(Debug, Clone)]
pub struct BomConfig {
    /// Fields to include in BOM output (e.g. "Value", "Footprint").
    pub fields: Vec<String>,
    /// Attributes to skip (e.g. "virtual", "dnp").
    pub skip_attrs: Vec<String>,
    /// References to skip (e.g. test points).
    pub skip_refs: Vec<String>,
}

pub open spec fn strings_view(v: Seq<String>) -> Seq<Seq<char>> {
    v.map_values(|s: String| s@)
}

impl Default for BomConfig {
    fn default() -> (res: Self)
        ensures
            strings_view(res.fields@) == seq!["Value"@, "Footprint"@],
            strings_view(res.skip_attrs@) == seq!["virtual"@],
            res.skip_refs@.len() == 0,
    {
        let mut fields = Vec::new();
        fields.push(to_string("Value"));
        fields.push(to_string("Footprint"));
        let mut skip_attrs = Vec::new();
        skip_attrs.push(to_string("virtual"));
        assert(strings_view(fields@) =~= seq!["Value"@, "Footprint"@]);
        assert(strings_view(skip_attrs@) =~= seq!["virtual"@]);
        Self { fields, skip_attrs, skip_refs: Vec::new() }
    }
}

/// Field values per footprint index, keyed by the index in decimal.
#[derive(Debug, Clone)]
pub struct BomFields(pub Vec<(String, Vec<String>)>);

/// BOM rows for both sides, each side, and the skipped footprint indices.
#[derive(Debug, Clone)]
pub struct BomData {
    pub both: Vec<Vec<(String, usize)>>,
    pub front: Vec<Vec<(String, usize)>>,
    pub back: Vec<Vec<(String, usize)>>,
    pub skipped: Vec<usize>,
    pub fields: BomFields,
}

// ───────────────────────────── specifications ─────────────────────────────

/// A BOM row entry: reference designator and footprint index.
pub type EntryV = (Seq<char>, int);

/// A group under construction: value, footprint name and entries.
pub type GroupV = (Seq<char>, Seq<char>, Seq<EntryV>);

/// A natural sort key: the text before the first digit and the number after it.
pub type NaturalKey = (Seq<char>, nat);

pub open spec fn entry_view(e: (String, usize)) -> EntryV {
    (e.0@, e.1 as int)
}

pub open spec fn entries_view(v: Seq<(String, usize)>) -> Seq<EntryV> {
    v.map_values(|e: (String, usize)| entry_view(e))
}

pub open spec fn rows_view(v: Seq<Vec<(String, usize)>>) -> Seq<Seq<EntryV>> {
    v.map_values(|r: Vec<(String, usize)>| entries_view(r@))
}

pub open spec fn group_view(g: (String, String, Vec<(String, usize)>)) -> GroupV {
    (g.0@, g.1@, entries_view(g.2@))
}

pub open spec fn groups_view(v: Seq<(String, String, Vec<(String, usize)>)>) -> Seq<GroupV> {
    v.map_values(|g: (String, String, Vec<(String, usize)>)| group_view(g))
}

/// Index of the first ASCII digit of `s`, or its length.
pub open spec fn first_digit_index(s: Seq<char>) -> nat
    decreases s.len(),
{
    if s.len() == 0 {
        0
    } else if is_digit(s[0]) {
        0
    } else {
        1 + first_digit_index(s.drop_first())
    }
}

/// Natural sort key: split into (prefix, number) for sorting like R1, R2, R10.
pub open spec fn natural_key(s: Seq<char>) -> NaturalKey {
    let p = first_digit_index(s) as int;
    (s.take(p), match parse_unsigned(s.skip(p), 0xffff_ffff_ffff_ffff) {
        Some(n) => n,
        None => 0,
    })
}

/// Lexicographic order of strings by code point, which is the order of their
/// UTF-8 bytes.
pub open spec fn text_lt(a: Seq<char>, b: Seq<char>) -> bool
    decreases a.len(),
{
    if a.len() == 0 {
        b.len() > 0
    } else if b.len() == 0 {
        false
    } else if a[0] != b[0] {
        a[0] < b[0]
    } else {
        text_lt(a.drop_first(), b.drop_first())
    }
}

/// Keys compare by prefix, then by number.
pub open spec fn key_le(a: NaturalKey, b: NaturalKey) -> bool {
    text_lt(a.0, b.0) || (a.0 == b.0 && a.1 <= b.1)
}

/// Inserts `x` into `s` after every element whose key is at most `x`'s
/// (scanning from the back), which keeps equal keys in arrival order.
pub open spec fn insert_by<T>(s: Seq<T>, x: T, key: spec_fn(T) -> NaturalKey) -> Seq<T>
    decreases s.len(),
{
    if s.len() == 0 {
        seq![x]
    } else if key_le(key(s.last()), key(x)) {
        s.push(x)
    } else {
        insert_by(s.drop_last(), x, key).push(s.last())
    }
}

/// Stable sort of `s` by `key`.
pub open spec fn sort_by<T>(s: Seq<T>, key: spec_fn(T) -> NaturalKey) -> Seq<T>
    decreases s.len(),
{
    if s.len() == 0 {
        seq![]
    } else {
        insert_by(sort_by(s.drop_last(), key), s.last(), key)
    }
}

pub open spec fn entry_key() -> spec_fn(EntryV) -> NaturalKey {
    |e: EntryV| natural_key(e.0)
}

pub open spec fn group_key() -> spec_fn(GroupV) -> NaturalKey {
    |g: GroupV| natural_key(g.2[0].0)
}

/// Whether a component takes part in a BOM grouping.
pub open spec fn included(c: Component, skipped: Seq<usize>, side: Option<Side>) -> bool {
    !skipped.contains(c.footprint_index) && match side {
        Some(s) => c.layer == s,
        None => true,
    }
}

/// Index of the first group with the given value and footprint name.
pub open spec fn find_group(gs: Seq<GroupV>, val: Seq<char>, fp: Seq<char>) -> Option<int>
    decreases gs.len(),
{
    if gs.len() == 0 {
        None
    } else {
        match find_group(gs.drop_last(), val, fp) {
            Some(k) => Some(k),
            None => if gs.last().0 == val && gs.last().1 == fp {
                Some(gs.len() - 1)
            } else {
                None
            },
        }
    }
}

/// Adds a component's entry to its (value, footprint) group, opening a new
/// group at the end when there is none.
pub open spec fn add_to_groups(gs: Seq<GroupV>, c: Component) -> Seq<GroupV> {
    let e = (c.ref_@, c.footprint_index as int);
    match find_group(gs, c.val@, c.footprint_name@) {
        Some(k) => gs.update(k, (gs[k].0, gs[k].1, gs[k].2.push(e))),
        None => gs.push((c.val@, c.footprint_name@, seq![e])),
    }
}

/// Groups of the included components, in order of first appearance.
pub open spec fn build_groups(cs: Seq<Component>, skipped: Seq<usize>, side: Option<Side>) -> Seq<GroupV>
    decreases cs.len(),
{
    if cs.len() == 0 {
        seq![]
    } else {
        let gs = build_groups(cs.drop_last(), skipped, side);
        if included(cs.last(), skipped, side) {
            add_to_groups(gs, cs.last())
        } else {
            gs
        }
    }
}

/// BOM rows: groups ordered by their first reference, each with its
/// references in natural order.
pub open spec fn bom_rows(cs: Seq<Component>, skipped: Seq<usize>, side: Option<Side>) -> Seq<Seq<EntryV>> {
    sort_by(build_groups(cs, skipped, side), group_key()).map_values(|g: GroupV| sort_by(g.2, entry_key()))
}

/// Value of a named extra field: the first one with that name, or empty.
pub open spec fn extra_field(fields: Seq<(String, String)>, name: Seq<char>) -> Seq<char>
    decreases fields.len(),
{
    if fields.len() == 0 {
        seq![]
    } else if fields[0].0@ == name {
        fields[0].1@
    } else {
        extra_field(fields.drop_first(), name)
    }
}

/// The BOM value of one configured field for a component.
pub open spec fn field_value(c: Component, name: Seq<char>) -> Seq<char> {
    if name == "Value"@ {
        c.val@
    } else if name == "Footprint"@ {
        c.footprint_name@
    } else {
        extra_field(c.extra_fields@, name)
    }
}

pub open spec fn field_values(c: Component, names: Seq<Seq<char>>) -> Seq<Seq<char>> {
    names.map_values(|n: Seq<char>| field_value(c, n))
}

pub type FieldRowV = (Seq<char>, Seq<Seq<char>>);

pub open spec fn find_key(rows: Seq<FieldRowV>, key: Seq<char>) -> Option<int>
    decreases rows.len(),
{
    if rows.len() == 0 {
        None
    } else {
        match find_key(rows.drop_last(), key) {
            Some(k) => Some(k),
            None => if rows.last().0 == key { Some(rows.len() - 1) } else { None },
        }
    }
}

/// Stores `vals` under `key`, replacing an earlier entry with that key.
pub open spec fn put_field_row(rows: Seq<FieldRowV>, key: Seq<char>, vals: Seq<Seq<char>>) -> Seq<FieldRowV> {
    match find_key(rows, key) {
        Some(k) => rows.update(k, (key, vals)),
        None => rows.push((key, vals)),
    }
}

/// Field rows of all components, keyed by footprint index; a later component
/// with the same index replaces the earlier one's values.
pub open spec fn field_rows(cs: Seq<Component>, names: Seq<Seq<char>>) -> Seq<FieldRowV>
    decreases cs.len(),
{
    if cs.len() == 0 {
        seq![]
    } else {
        let c = cs.last();
        put_field_row(field_rows(cs.drop_last(), names), decimal(c.footprint_index as nat), field_values(c, names))
    }
}

pub open spec fn field_rows_view(v: Seq<(String, Vec<String>)>) -> Seq<FieldRowV> {
    v.map_values(|r: (String, Vec<String>)| (r.0@, strings_view(r.1@)))
}

/// Whether a component is left out of the BOM rows.
pub open spec fn should_skip(c: Component, cfg: BomConfig) -> bool {
    (exists|i: int| 0 <= i < cfg.skip_attrs@.len() && (c.attr matches Some(a) && a@ == (#[trigger] cfg.skip_attrs@[i])@))
        || (exists|i: int| 0 <= i < cfg.skip_refs@.len() && starts_with(c.ref_@, (#[trigger] cfg.skip_refs@[i])@))
}

/// Footprint indices of the skipped components, in component order.
pub open spec fn skipped_indices(cs: Seq<Component>, cfg: BomConfig) -> Seq<usize>
    decreases cs.len(),
{
    if cs.len() == 0 {
        seq![]
    } else {
        let s = skipped_indices(cs.drop_last(), cfg);
        if should_skip(cs.last(), cfg) { s.push(cs.last().footprint_index) } else { s }
    }
}

// ───────────────────────────── proofs ─────────────────────────────

/// Inserting at `j` is what `insert_by` does, when every element from `j` on
/// has a larger key than `x` and the one before `j` does not.
proof fn lemma_insert_by_at<T>(s: Seq<T>, x: T, key: spec_fn(T) -> NaturalKey, j: int)
    requires
        0 <= j <= s.len(),
        forall|i: int| j <= i < s.len() ==> !key_le(key(#[trigger] s[i]), key(x)),
        j == 0 || key_le(key(s[j - 1]), key(x)),
    ensures
        insert_by(s, x, key) == s.take(j).push(x) + s.skip(j),
    decreases s.len(),
{
    if s.len() == 0 {
        assert(s.take(j).push(x) + s.skip(j) =~= seq![x]);
    } else if j == s.len() {
        assert(s.take(j).push(x) + s.skip(j) =~= s.push(x));
    } else {
        assert(!key_le(key(s[s.len() - 1]), key(x)));
        assert forall|i: int| j <= i < s.drop_last().len() implies !key_le(key(#[trigger] s.drop_last()[i]), key(x)) by {
            assert(s.drop_last()[i] == s[i]);
        }
        lemma_insert_by_at(s.drop_last(), x, key, j);
        assert(s.drop_last().take(j).push(x) + s.drop_last().skip(j) + seq![s.last()] =~= s.take(j).push(x) + s.skip(j));
    }
}

pub proof fn lemma_text_lt_irreflexive(a: Seq<char>)
    ensures
        !text_lt(a, a),
    decreases a.len(),
{
    if a.len() > 0 {
        lemma_text_lt_irreflexive(a.drop_first());
    }
}

pub proof fn lemma_text_lt_transitive(a: Seq<char>, b: Seq<char>, c: Seq<char>)
    requires
        text_lt(a, b),
        text_lt(b, c),
    ensures
        text_lt(a, c),
    decreases a.len(),
{
    if a.len() > 0 && b.len() > 0 && c.len() > 0 && a[0] == b[0] && b[0] == c[0] {
        lemma_text_lt_transitive(a.drop_first(), b.drop_first(), c.drop_first());
    }
}

pub proof fn lemma_text_lt_total(a: Seq<char>, b: Seq<char>)
    ensures
        text_lt(a, b) || text_lt(b, a) || a == b,
    decreases a.len(),
{
    if a.len() > 0 && b.len() > 0 && a[0] == b[0] {
        lemma_text_lt_total(a.drop_first(), b.drop_first());
        if a.drop_first() == b.drop_first() {
            assert(a =~= seq![a[0]] + a.drop_first());
            assert(b =~= seq![b[0]] + b.drop_first());
        }
    } else if a.len() == 0 && b.len() == 0 {
        assert(a =~= b);
    }
}

/// The natural order on keys is a total preorder: reflexive, transitive and total.
pub proof fn lemma_key_le_total_preorder(a: NaturalKey, b: NaturalKey, c: NaturalKey)
    ensures
        key_le(a, a),
        key_le(a, b) || key_le(b, a),
        key_le(a, b) && key_le(b, c) ==> key_le(a, c),
{
    lemma_text_lt_total(a.0, b.0);
    if key_le(a, b) && key_le(b, c) {
        if text_lt(a.0, b.0) && text_lt(b.0, c.0) {
            lemma_text_lt_transitive(a.0, b.0, c.0);
        }
    }
}

/// The elements of `sort_by(s)` are those of `s`, each as often, and they come
/// out in non-decreasing key order.
pub proof fn lemma_sort_by_sorted_permutation<T>(s: Seq<T>, key: spec_fn(T) -> NaturalKey)
    ensures
        sort_by(s, key).to_multiset() == s.to_multiset(),
        forall|i: int, j: int| 0 <= i < j < sort_by(s, key).len() ==>
            key_le(key(sort_by(s, key)[i]), key(sort_by(s, key)[j])),
    decreases s.len(),
{
    broadcast use vstd::seq_lib::group_seq_properties;
    if s.len() > 0 {
        lemma_sort_by_sorted_permutation(s.drop_last(), key);
        lemma_insert_by_sorted(sort_by(s.drop_last(), key), s.last(), key);
        assert(s =~= s.drop_last().push(s.last()));
    }
}

proof fn lemma_insert_by_sorted<T>(s: Seq<T>, x: T, key: spec_fn(T) -> NaturalKey)
    requires
        forall|i: int, j: int| 0 <= i < j < s.len() ==> key_le(key(s[i]), key(s[j])),
    ensures
        insert_by(s, x, key).to_multiset() == s.to_multiset().insert(x),
        forall|i: int, j: int| 0 <= i < j < insert_by(s, x, key).len() ==>
            key_le(key(insert_by(s, x, key)[i]), key(insert_by(s, x, key)[j])),
    decreases s.len(),
{
    broadcast use vstd::seq_lib::group_seq_properties;
    let r = insert_by(s, x, key);
    if s.len() == 0 {
        assert(r =~= seq![x]);
    } else if key_le(key(s.last()), key(x)) {
        assert forall|i: int, j: int| 0 <= i < j < r.len() implies key_le(key(r[i]), key(r[j])) by {
            if j == s.len() {
                lemma_key_le_total_preorder(key(s[i]), key(s.last()), key(x));
                if i < s.len() - 1 {
                    assert(key_le(key(s[i]), key(s[s.len() - 1])));
                }
                lemma_key_le_total_preorder(key(s[i]), key(s[i]), key(x));
            }
        }
    } else {
        let t = s.drop_last();
        lemma_insert_by_sorted(t, x, key);
        let it = insert_by(t, x, key);
        assert(s =~= t.push(s.last()));
        assert forall|i: int, j: int| 0 <= i < j < r.len() implies key_le(key(r[i]), key(r[j])) by {
            if j == r.len() - 1 {
                // every element of insert_by(t, x) is an element of t or x
                assert(it.to_multiset().count(r[i]) > 0);
                assert(t.to_multiset().insert(x).count(r[i]) > 0);
                lemma_key_le_total_preorder(key(x), key(s.last()), key(s.last()));
                if r[i] == x {
                } else {
                    assert(t.to_multiset().count(r[i]) > 0);
                    assert(t.contains(r[i]));
                    let k = choose|k: int| 0 <= k < t.len() && t[k] == r[i];
                    assert(key_le(key(s[k]), key(s[s.len() - 1])));
                }
            }
        }
    }
}

// ───────────────────────────── exec ─────────────────────────────

/// Natural sort key as characters and number.
fn natural_key_exec(s: &[char]) -> (res: (Vec<char>, u64))
    ensures
        (res.0@, res.1 as nat) == natural_key(s@),
{
    let mut p: usize = 0;
    assert(s@.skip(0) =~= s@);
    while p < s.len() && !('0' <= s[p] && s[p] <= '9')
        invariant
            p <= s.len(),
            first_digit_index(s@) == p + first_digit_index(s@.skip(p as int)),
        decreases s.len() - p,
    {
        assert(s@.skip(p as int).drop_first() =~= s@.skip(p + 1));
        p += 1;
    }
    let prefix = slice_chars(s, 0, p);
    let rest = slice_chars(s, p, s.len());
    assert(prefix@ =~= s@.take(p as int));
    assert(rest@ =~= s@.skip(p as int));
    let num = match parse_unsigned_exec(&rest, 0xffff_ffff_ffff_ffff) {
        Some(n) => n,
        None => 0,
    };
    (prefix, num)
}

/// Natural sort key: split into (prefix, number) for sorting like R1, R2, R10.
pub fn natural_sort_key(s: &str) -> (res: (String, u64))
    ensures
        (res.0@, res.1 as nat) == natural_key(s@),
{
    let cs = chars_of(s);
    let (p, n) = natural_key_exec(&cs);
    (string_from_chars(&p), n)
}

fn text_lt_exec(a: &[char], b: &[char]) -> (res: bool)
    ensures
        res == text_lt(a@, b@),
{
    let mut i: usize = 0;
    assert(a@.skip(0) =~= a@);
    assert(b@.skip(0) =~= b@);
    while i < a.len() && i < b.len() && a[i] == b[i]
        invariant
            i <= a.len(),
            i <= b.len(),
            text_lt(a@, b@) == text_lt(a@.skip(i as int), b@.skip(i as int)),
        decreases a.len() - i,
    {
        assert(a@.skip(i as int).drop_first() =~= a@.skip(i + 1));
        assert(b@.skip(i as int).drop_first() =~= b@.skip(i + 1));
        i += 1;
    }
    if i == a.len() {
        i < b.len()
    } else if i == b.len() {
        false
    } else {
        a[i] < b[i]
    }
}

fn key_le_exec(a: &(Vec<char>, u64), b: &(Vec<char>, u64)) -> (res: bool)
    ensures
        res == key_le((a.0@, a.1 as nat), (b.0@, b.1 as nat)),
{
    if text_lt_exec(&a.0, &b.0) {
        true
    } else if a.0.len() == b.0.len() && text_lt_exec(&a.0, &b.0) == false && text_lt_exec(&b.0, &a.0) == false {
        proof {
            lemma_text_lt_total(a.0@, b.0@);
        }
        a.1 <= b.1
    } else {
        proof {
            if a.0@ == b.0@ {
                lemma_text_lt_irreflexive(a.0@);
            }
        }
        false
    }
}

fn clone_entry(e: &(String, usize)) -> (res: (String, usize))
    ensures
        entry_view(res) == entry_view(*e),
{
    (e.0.clone(), e.1)
}

/// Stable sort of BOM entries by the natural key of their reference.
fn sort_entries(v: &Vec<(String, usize)>) -> (res: Vec<(String, usize)>)
    ensures
        entries_view(res@) == sort_by(entries_view(v@), entry_key()),
{
    let mut out: Vec<(String, usize)> = Vec::new();
    let mut keys: Vec<(Vec<char>, u64)> = Vec::new();
    let mut n: usize = 0;
    while n < v.len()
        invariant
            n <= v.len(),
            out@.len() == keys@.len(),
            entries_view(out@) == sort_by(entries_view(v@).take(n as int), entry_key()),
            forall|i: int| 0 <= i < keys@.len() ==> (#[trigger] keys@[i].0@, keys@[i].1 as nat) == natural_key(out@[i].0@),
        decreases v.len() - n,
    {
        let e = clone_entry(&v[n]);
        let ec = chars_of(e.0.as_str());
        let k = natural_key_exec(&ec);
        let mut j = out.len();
        while j > 0 && !key_le_exec(&keys[j - 1], &k)
            invariant
                j <= out@.len(),
                out@.len() == keys@.len(),
                forall|i: int| 0 <= i < keys@.len() ==> (#[trigger] keys@[i].0@, keys@[i].1 as nat) == natural_key(out@[i].0@),
                (k.0@, k.1 as nat) == natural_key(e.0@),
                forall|i: int| j <= i < out@.len() ==> !key_le(natural_key(#[trigger] out@[i].0@), natural_key(e.0@)),
            decreases j,
        {
            j -= 1;
        }
        proof {
            let sv = entries_view(out@);
            let ghost f = entry_key();
            assert forall|i: int| j <= i < sv.len() implies !key_le(f(#[trigger] sv[i]), f(entry_view(e))) by {
                assert(sv[i] == entry_view(out@[i]));
            }
            if j > 0 {
                assert(sv[j - 1] == entry_view(out@[j - 1]));
            }
            lemma_insert_by_at(sv, entry_view(e), f, j as int);
            assert(entries_view(v@).take(n + 1) =~= entries_view(v@).take(n as int).push(entry_view(v@[n as int])));
            assert(entries_view(v@).take(n + 1).drop_last() =~= entries_view(v@).take(n as int));
        }
        let ghost old_out = out@;
        let ghost old_keys = keys@;
        out.insert(j, e);
        keys.insert(j, k);
        proof {
            let sv = entries_view(old_out);
            assert(entries_view(out@) =~= sv.take(j as int).push(entry_view(e)) + sv.skip(j as int));
            assert forall|i: int| 0 <= i < keys@.len() implies (#[trigger] keys@[i].0@, keys@[i].1 as nat) == natural_key(out@[i].0@) by {
                if i < j {
                    assert(keys@[i] == old_keys[i] && out@[i] == old_out[i]);
                } else if i == j {
                } else {
                    assert(keys@[i] == old_keys[i - 1] && out@[i] == old_out[i - 1]);
                }
            }
        }
        n += 1;
    }
    assert(entries_view(v@).take(v.len() as int) =~= entries_view(v@));
    out
}


proof fn lemma_find_group_first(gs: Seq<GroupV>, val: Seq<char>, fp: Seq<char>, k: int)
    requires
        0 <= k <= gs.len(),
        forall|i: int| 0 <= i < k ==> !(gs[i].0 == val && gs[i].1 == fp),
        k < gs.len() ==> gs[k].0 == val && gs[k].1 == fp,
    ensures
        find_group(gs, val, fp) == (if k < gs.len() { Some(k) } else { None::<int> }),
    decreases gs.len(),
{
    if gs.len() > 0 {
        if k < gs.len() - 1 {
            lemma_find_group_first(gs.drop_last(), val, fp, k);
        } else {
            lemma_find_group_first(gs.drop_last(), val, fp, gs.len() - 1);
        }
    }
}

proof fn lemma_find_key_first(rows: Seq<FieldRowV>, key: Seq<char>, k: int)
    requires
        0 <= k <= rows.len(),
        forall|i: int| 0 <= i < k ==> rows[i].0 != key,
        k < rows.len() ==> rows[k].0 == key,
    ensures
        find_key(rows, key) == (if k < rows.len() { Some(k) } else { None::<int> }),
    decreases rows.len(),
{
    if rows.len() > 0 {
        if k < rows.len() - 1 {
            lemma_find_key_first(rows.drop_last(), key, k);
        } else {
            lemma_find_key_first(rows.drop_last(), key, rows.len() - 1);
        }
    }
}

fn contains_index(v: &[usize], x: usize) -> (res: bool)
    ensures
        res == v@.contains(x),
{
    let mut i: usize = 0;
    while i < v.len()
        invariant
            i <= v.len(),
            forall|j: int| 0 <= j < i ==> v@[j] != x,
        decreases v.len() - i,
    {
        if v[i] == x {
            return true;
        }
        i += 1;
    }
    false
}

fn side_eq(a: Side, b: Side) -> (res: bool)
    ensures
        res == (a == b),
{
    match (a, b) {
        (Side::Front, Side::Front) | (Side::Back, Side::Back) => true,
        _ => false,
    }
}

/// Stable sort of groups by the natural key of their first reference.
fn sort_groups(v: Vec<(String, String, Vec<(String, usize)>)>) -> (res: Vec<(String, String, Vec<(String, usize)>)>)
    requires
        forall|i: int| 0 <= i < v@.len() ==> (#[trigger] v@[i]).2@.len() > 0,
    ensures
        groups_view(res@) == sort_by(groups_view(v@), group_key()),
{
    let ghost gv = groups_view(v@);
    let mut out: Vec<(String, String, Vec<(String, usize)>)> = Vec::new();
    let mut keys: Vec<(Vec<char>, u64)> = Vec::new();
    let mut src = v;
    let mut rev_src: Vec<(String, String, Vec<(String, usize)>)> = Vec::new();
    // reverse the input so that popping yields elements in input order
    while src.len() > 0
        invariant
            groups_view(src@) + groups_view(rev_src@).reverse() == gv,
            forall|i: int| 0 <= i < src@.len() ==> (#[trigger] src@[i]).2@.len() > 0,
            forall|i: int| 0 <= i < rev_src@.len() ==> (#[trigger] rev_src@[i]).2@.len() > 0,
        decreases src.len(),
    {
        let ghost s0 = src@;
        let ghost r0 = rev_src@;
        let g = src.pop().unwrap();
        rev_src.push(g);
        proof {
            assert(s0 =~= src@.push(g));
            assert(groups_view(s0) =~= groups_view(src@).push(group_view(g)));
            assert(groups_view(rev_src@) =~= groups_view(r0).push(group_view(g)));
            assert(groups_view(rev_src@).reverse() =~= seq![group_view(g)] + groups_view(r0).reverse());
            assert(groups_view(src@).push(group_view(g)) + groups_view(r0).reverse() =~= groups_view(src@) + groups_view(rev_src@).reverse());
        }
    }
    assert(groups_view(src@) =~= Seq::<GroupV>::empty());
    assert(groups_view(rev_src@).reverse() =~= gv);
    let mut n: usize = 0;
    let total = rev_src.len();
    while rev_src.len() > 0
        invariant
            n + rev_src@.len() == total,
            total == gv.len(),
            groups_view(rev_src@).reverse() == gv.skip(n as int),
            forall|i: int| 0 <= i < rev_src@.len() ==> (#[trigger] rev_src@[i]).2@.len() > 0,
            forall|i: int| 0 <= i < out@.len() ==> (#[trigger] out@[i]).2@.len() > 0,
            out@.len() == keys@.len(),
            groups_view(out@) == sort_by(gv.take(n as int), group_key()),
            forall|i: int| 0 <= i < keys@.len() ==> (#[trigger] keys@[i].0@, keys@[i].1 as nat) == natural_key(out@[i].2@[0].0@),
        decreases rev_src.len(),
    {
        let ghost r0 = rev_src@;
        let g = rev_src.pop().unwrap();
        proof {
            assert(r0 =~= rev_src@.push(g));
            assert(groups_view(r0) =~= groups_view(rev_src@).push(group_view(g)));
            assert(groups_view(r0).reverse() =~= seq![group_view(g)] + groups_view(rev_src@).reverse());
            assert(gv.skip(n as int)[0] == group_view(g));
            assert(gv.skip(n + 1) =~= gv.skip(n as int).drop_first());
            assert(groups_view(rev_src@).reverse() =~= gv.skip(n + 1));
            assert(gv[n as int] == group_view(g));
        }
        let first = &g.2[0];
        let fc = chars_of(first.0.as_str());
        let k = natural_key_exec(&fc);
        let mut j = out.len();
        while j > 0 && !key_le_exec(&keys[j - 1], &k)
            invariant
                j <= out@.len(),
                out@.len() == keys@.len(),
                forall|i: int| 0 <= i < keys@.len() ==> (#[trigger] keys@[i].0@, keys@[i].1 as nat) == natural_key(out@[i].2@[0].0@),
                (k.0@, k.1 as nat) == natural_key(g.2@[0].0@),
                forall|i: int| j <= i < out@.len() ==> !key_le(natural_key((#[trigger] out@[i]).2@[0].0@), natural_key(g.2@[0].0@)),
            decreases j,
        {
            j -= 1;
        }
        proof {
            let sv = groups_view(out@);
            let ghost f = group_key();
            assert forall|i: int| j <= i < sv.len() implies !key_le(f(#[trigger] sv[i]), f(group_view(g))) by {
                assert(sv[i] == group_view(out@[i]));
                assert(sv[i].2[0] == entry_view(out@[i].2@[0]));
            }
            assert(group_view(g).2[0] == entry_view(g.2@[0]));
            if j > 0 {
                assert(sv[j - 1] == group_view(out@[j - 1]));
                assert(sv[j - 1].2[0] == entry_view(out@[j - 1].2@[0]));
            }
            lemma_insert_by_at(sv, group_view(g), f, j as int);
            assert(gv.take(n + 1).drop_last() =~= gv.take(n as int));
            assert(gv.take(n + 1).last() == gv[n as int]);
        }
        let ghost old_out = out@;
        let ghost old_keys = keys@;
        out.insert(j, g);
        keys.insert(j, k);
        proof {
            let sv = groups_view(old_out);
            assert(groups_view(out@) =~= sv.take(j as int).push(group_view(g)) + sv.skip(j as int));
            assert forall|i: int| 0 <= i < keys@.len() implies (#[trigger] keys@[i].0@, keys@[i].1 as nat) == natural_key(out@[i].2@[0].0@) by {
                if i < j {
                    assert(keys@[i] == old_keys[i] && out@[i] == old_out[i]);
                } else if i == j {
                } else {
                    assert(keys@[i] == old_keys[i - 1] && out@[i] == old_out[i - 1]);
                }
            }
            assert forall|i: int| 0 <= i < out@.len() implies (#[trigger] out@[i]).2@.len() > 0 by {
                if i < j {
                    assert(out@[i] == old_out[i]);
                } else if i > j {
                    assert(out@[i] == old_out[i - 1]);
                }
            }
        }
        n += 1;
    }
    assert(gv.take(total as int) =~= gv);
    out
}

/// Group components into BOM rows.
/// Each row is a Vec<(ref_designator, footprint_index)>.
/// Components are grouped by matching (value, footprint_name).
pub fn group_components(components: &[Component], skipped: &[usize], side_filter: Option<Side>) -> (res: Vec<Vec<(String, usize)>>)
    ensures
        rows_view(res@) == bom_rows(components@, skipped@, side_filter),
{
    // Group key: (value, footprint_name)
    let mut groups: Vec<(String, String, Vec<(String, usize)>)> = Vec::new();
    let mut n: usize = 0;
    while n < components.len()
        invariant
            n <= components.len(),
            groups_view(groups@) == build_groups(components@.take(n as int), skipped@, side_filter),
            forall|i: int| 0 <= i < groups@.len() ==> (#[trigger] groups@[i]).2@.len() > 0,
        decreases components.len() - n,
    {
        let comp = &components[n];
        proof {
            assert(components@.take(n + 1).drop_last() =~= components@.take(n as int));
            assert(components@.take(n + 1).last() == components@[n as int]);
        }
        let mut take = !contains_index(skipped, comp.footprint_index);
        if let Some(side) = side_filter {
            if !side_eq(comp.layer, side) {
                take = false;
            }
        }
        if take {
            let mut k: usize = 0;
            while k < groups.len() && !(groups[k].0 == comp.val && groups[k].1 == comp.footprint_name)
                invariant
                    k <= groups@.len(),
                    forall|i: int| 0 <= i < k ==> !((#[trigger] groups_view(groups@)[i]).0 == comp.val@ && groups_view(groups@)[i].1 == comp.footprint_name@),
                decreases groups.len() - k,
            {
                assert(groups_view(groups@)[k as int] == group_view(groups@[k as int]));
                k += 1;
            }
            proof {
                if k < groups@.len() {
                    assert(groups_view(groups@)[k as int] == group_view(groups@[k as int]));
                }
                lemma_find_group_first(groups_view(groups@), comp.val@, comp.footprint_name@, k as int);
            }
            let entry = (comp.ref_.clone(), comp.footprint_index);
            let ghost old_groups = groups@;
            if k < groups.len() {
                let mut g = groups.remove(k);
                let ghost g0 = g;
                g.2.push(entry);
                let ghost g1 = g;
                groups.insert(k, g);
                proof {
                    assert(g0 == old_groups[k as int]);
                    assert(groups@ =~= old_groups.update(k as int, g1));
                    assert(entries_view(g1.2@) =~= entries_view(g0.2@).push(entry_view(entry)));
                    assert(group_view(g1) == (groups_view(old_groups)[k as int].0, groups_view(old_groups)[k as int].1, groups_view(old_groups)[k as int].2.push(entry_view(entry))));
                    assert(groups_view(groups@) =~= groups_view(old_groups).update(k as int, (groups_view(old_groups)[k as int].0, groups_view(old_groups)[k as int].1, groups_view(old_groups)[k as int].2.push(entry_view(entry)))));
                    assert forall|i: int| 0 <= i < groups@.len() implies (#[trigger] groups@[i]).2@.len() > 0 by {
                        if i != k { assert(groups@[i] == old_groups[i]); }
                    }
                }
            } else {
                let mut refs = Vec::new();
                refs.push(entry);
                let ghost refs_v = refs@;
                groups.push((comp.val.clone(), comp.footprint_name.clone(), refs));
                proof {
                    assert(entries_view(refs_v) =~= seq![entry_view(entry)]);
                    assert(groups_view(groups@) =~= groups_view(old_groups).push((comp.val@, comp.footprint_name@, seq![entry_view(entry)])));
                    assert forall|i: int| 0 <= i < groups@.len() implies (#[trigger] groups@[i]).2@.len() > 0 by {
                        if i < old_groups.len() { assert(groups@[i] == old_groups[i]); }
                    }
                }
            }
        }
        n += 1;
    }
    assert(components@.take(components.len() as int) =~= components@);

    // Sort groups by first reference designator
    let sorted = sort_groups(groups);
    let ghost sv = groups_view(sorted@);

    // Sort refs within each group
    let mut rows: Vec<Vec<(String, usize)>> = Vec::new();
    let mut i: usize = 0;
    while i < sorted.len()
        invariant
            i <= sorted@.len(),
            sv == groups_view(sorted@),
            rows_view(rows@) == sv.take(i as int).map_values(|g: GroupV| sort_by(g.2, entry_key())),
        decreases sorted.len() - i,
    {
        let r = sort_entries(&sorted[i].2);
        let ghost old_rows = rows@;
        rows.push(r);
        proof {
            assert(sv[i as int] == group_view(sorted@[i as int]));
            assert(rows_view(rows@) =~= rows_view(old_rows).push(entries_view(r@)));
            assert(sv.take(i + 1) =~= sv.take(i as int).push(sv[i as int]));
            assert(rows_view(rows@) =~= sv.take(i + 1).map_values(|g: GroupV| sort_by(g.2, entry_key())));
        }
        i += 1;
    }
    assert(sv.take(sorted.len() as int) =~= sv);
    rows
}

/// The BOM value of a configured field.
fn field_value_exec(comp: &Component, name: &String) -> (res: String)
    ensures
        res@ == field_value(*comp, name@),
{
    let nc = chars_of(name.as_str());
    if eq_str(&nc, "Value") {
        comp.val.clone()
    } else if eq_str(&nc, "Footprint") {
        comp.footprint_name.clone()
    } else {
        let fields = &comp.extra_fields;
        let mut i: usize = 0;
        assert(fields@.skip(0) =~= fields@);
        while i < fields.len()
            invariant
                i <= fields@.len(),
                field_value(*comp, name@) == extra_field(fields@, name@),
                extra_field(fields@, name@) == extra_field(fields@.skip(i as int), name@),
            decreases fields.len() - i,
        {
            assert(fields@.skip(i as int).drop_first() =~= fields@.skip(i + 1));
            assert(fields@.skip(i as int)[0] == fields@[i as int]);
            if fields[i].0 == *name {
                let r = fields[i].1.clone();
                assert(fields@.skip(i as int)[0].0@ == name@);
                assert(extra_field(fields@.skip(i as int), name@) == fields@[i as int].1@);
                return r;
            }
            i += 1;
        }
        let r = String::new();
        assert(r@ =~= extra_field(fields@.skip(i as int), name@));
        r
    }
}

fn should_skip_exec(comp: &Component, config: &BomConfig) -> (res: bool)
    ensures
        res == should_skip(*comp, *config),
{
    let mut i: usize = 0;
    while i < config.skip_attrs.len()
        invariant
            i <= config.skip_attrs@.len(),
            forall|j: int| 0 <= j < i ==> !(comp.attr matches Some(a) && a@ == (#[trigger] config.skip_attrs@[j])@),
        decreases config.skip_attrs.len() - i,
    {
        if let Some(a) = &comp.attr {
            if *a == config.skip_attrs[i] {
                return true;
            }
        }
        i += 1;
    }
    let rc = chars_of(comp.ref_.as_str());
    let mut j: usize = 0;
    while j < config.skip_refs.len()
        invariant
            j <= config.skip_refs@.len(),
            rc@ == comp.ref_@,
            forall|k: int| 0 <= k < config.skip_attrs@.len() ==> !(comp.attr matches Some(a) && a@ == (#[trigger] config.skip_attrs@[k])@),
            forall|k: int| 0 <= k < j ==> !starts_with(comp.ref_@, (#[trigger] config.skip_refs@[k])@),
        decreases config.skip_refs.len() - j,
    {
        if starts_with_str(&rc, config.skip_refs[j].as_str()) {
            return true;
        }
        j += 1;
    }
    false
}

/// Generate BOM data from footprints and components.
pub fn generate_bom<F>(_footprints: &[F], components: &[Component], config: &BomConfig) -> (res: BomData)
    ensures
        field_rows_view(res.fields.0@) == field_rows(components@, strings_view(config.fields@)),
        res.skipped@ == skipped_indices(components@, *config),
        rows_view(res.both@) == bom_rows(components@, res.skipped@, None),
        rows_view(res.front@) == bom_rows(components@, res.skipped@, Some(Side::Front)),
        rows_view(res.back@) == bom_rows(components@, res.skipped@, Some(Side::Back)),
{
    // Build fields map: footprint_index -> [field_values]
    let mut fields_map: Vec<(String, Vec<String>)> = Vec::new();
    let mut skipped: Vec<usize> = Vec::new();
    let ghost names = strings_view(config.fields@);
    let mut n: usize = 0;
    while n < components.len()
        invariant
            n <= components.len(),
            names == strings_view(config.fields@),
            field_rows_view(fields_map@) == field_rows(components@.take(n as int), names),
            skipped@ == skipped_indices(components@.take(n as int), *config),
        decreases components.len() - n,
    {
        let comp = &components[n];
        proof {
            assert(components@.take(n + 1).drop_last() =~= components@.take(n as int));
            assert(components@.take(n + 1).last() == components@[n as int]);
        }
        let idx_chars = decimal_chars(comp.footprint_index as u64);
        let idx_str = string_from_chars(&idx_chars);
        let mut field_vals: Vec<String> = Vec::new();
        let mut f: usize = 0;
        while f < config.fields.len()
            invariant
                f <= config.fields@.len(),
                names == strings_view(config.fields@),
                strings_view(field_vals@) == names.take(f as int).map_values(|nm: Seq<char>| field_value(*comp, nm)),
            decreases config.fields.len() - f,
        {
            let v = field_value_exec(comp, &config.fields[f]);
            let ghost old_vals = field_vals@;
            field_vals.push(v);
            proof {
                assert(strings_view(field_vals@) =~= strings_view(old_vals).push(v@));
                assert(names.take(f + 1) =~= names.take(f as int).push(names[f as int]));
                assert(names[f as int] == config.fields@[f as int]@);
                assert(strings_view(field_vals@) =~= names.take(f + 1).map_values(|nm: Seq<char>| field_value(*comp, nm)));
            }
            f += 1;
        }
        assert(names.take(config.fields.len() as int) =~= names);
        // put (idx_str, field_vals), replacing an earlier row with the same key
        let mut k: usize = 0;
        while k < fields_map.len() && !(fields_map[k].0 == idx_str)
            invariant
                k <= fields_map@.len(),
                forall|i: int| 0 <= i < k ==> (#[trigger] field_rows_view(fields_map@)[i]).0 != idx_str@,
            decreases fields_map.len() - k,
        {
            k += 1;
        }
        proof {
            lemma_find_key_first(field_rows_view(fields_map@), idx_str@, k as int);
        }
        let ghost old_map = fields_map@;
        if k < fields_map.len() {
            fields_map.remove(k);
            fields_map.insert(k, (idx_str, field_vals));
            assert(field_rows_view(fields_map@) =~= field_rows_view(old_map).update(k as int, (idx_chars@, field_values(*comp, names))));
        } else {
            fields_map.push((idx_str, field_vals));
            assert(field_rows_view(fields_map@) =~= field_rows_view(old_map).push((idx_chars@, field_values(*comp, names))));
        }

        // Check if component should be skipped
        if should_skip_exec(comp, config) {
            skipped.push(comp.footprint_index);
        }
        n += 1;
    }
    assert(components@.take(components.len() as int) =~= components@);

    // Group components by (value, footprint) for BOM rows
    let both = group_components(components, &skipped, None);
    let front = group_components(components, &skipped, Some(Side::Front));
    let back = group_components(components, &skipped, Some(Side::Back));

    BomData { both, front, back, skipped, fields: BomFields(fields_map) }
}

} // verus!
