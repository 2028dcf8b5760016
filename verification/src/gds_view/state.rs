//! The viewer's per-design state: its storage keys, the design a page
//! address names, the default order of the layers, and how persisted layers
//! are merged with those of a new manifest.
use vstd::prelude::*;

use super::manifest::Layer;
use crate::text::{chars_of, eq_chars, eq_str, nth_field, nth_field_exec, push_str, string_from_chars, to_string};

verus! {

/// The local-storage key prefix of one design: `gds:{id}:`.
pub fn storage_prefix(id: &str) -> (res: String)
    ensures
        res@ == "gds:"@ + id@ + ":"@,
{
    let mut s = to_string("gds:");
    push_str(&mut s, id);
    push_str(&mut s, ":");
    s
}

/// `s` without its leading slashes.
pub open spec fn trim_leading_slashes(s: Seq<char>) -> Seq<char>
    decreases s.len(),
{
    if s.len() > 0 && s[0] == '/' {
        trim_leading_slashes(s.drop_first())
    } else {
        s
    }
}

/// The design id of a page path `/g/{id}` (leading slashes ignored, anything
/// after the id too): none unless the first segment is `g` and the second is
/// not empty.
pub open spec fn id_from_path_spec(path: Seq<char>) -> Option<Seq<char>> {
    let t = trim_leading_slashes(path);
    if nth_field(t, '/', 0) == Some("g"@) {
        match nth_field(t, '/', 1) {
            Some(id) => if id.len() > 0 { Some(id) } else { None },
            None => None,
        }
    } else {
        None
    }
}

/// The design id a page path names.
pub fn id_from_path(pathname: &str) -> (res: Option<String>)
    ensures
        match res {
            Some(s) => id_from_path_spec(pathname@) == Some(s@),
            None => id_from_path_spec(pathname@) is None,
        },
{
    let cs = chars_of(pathname);
    let mut start: usize = 0;
    assert(cs@.skip(0) =~= pathname@);
    while start < cs.len() && cs[start] == '/'
        invariant
            start <= cs@.len(),
            trim_leading_slashes(cs@.skip(start as int)) == trim_leading_slashes(pathname@),
        decreases cs@.len() - start,
    {
        assert(cs@.skip(start as int).drop_first() =~= cs@.skip(start + 1));
        start += 1;
    }
    let ghost t = cs@.skip(start as int);
    assert(trim_leading_slashes(t) == t);
    let mut rest: Vec<char> = Vec::new();
    let mut k: usize = start;
    while k < cs.len()
        invariant
            start <= k <= cs@.len(),
            rest@ == cs@.subrange(start as int, k as int),
        decreases cs@.len() - k,
    {
        rest.push(cs[k]);
        k += 1;
    }
    assert(rest@ =~= t);
    let first = nth_field_exec(&rest, '/', 0);
    let is_g = match &first {
        Some(f) => eq_str(f, "g"),
        None => false,
    };
    if !is_g {
        return None;
    }
    match nth_field_exec(&rest, '/', 1) {
        Some(id) => {
            if id.len() == 0 {
                None
            } else {
                Some(string_from_chars(&id))
            }
        },
        None => None,
    }
}

// ───────────────────────────── default layer order ─────────────────────────────

/// The order key of manifest layer `i`: its `default_order`, or its index.
pub open spec fn order_key(layers: Seq<Layer>, i: int) -> int {
    match layers[i].default_order {
        Some(o) => o as int,
        None => i,
    }
}

/// How many of the layers listed in `acc` have an order key at or below `key`.
pub open spec fn count_at_or_below(acc: Seq<usize>, layers: Seq<Layer>, key: int) -> nat
    decreases acc.len(),
{
    if acc.len() == 0 {
        0
    } else {
        count_at_or_below(acc.drop_last(), layers, key) + if order_key(layers, acc.last() as int) <= key { 1nat } else { 0nat }
    }
}

/// The first `n` layers in display order: each layer goes after every layer
/// before it whose key is at or below its own (a stable sort by key).
pub open spec fn display_order(layers: Seq<Layer>, n: nat) -> Seq<usize>
    decreases n,
{
    if n == 0 {
        seq![]
    } else {
        let acc = display_order(layers, (n - 1) as nat);
        let i = (n - 1) as int;
        acc.insert(count_at_or_below(acc, layers, order_key(layers, i)) as int, i as usize)
    }
}

fn order_key_exec(layers: &[Layer], i: usize) -> (res: i128)
    requires
        i < layers@.len(),
    ensures
        res as int == order_key(layers@, i as int),
{
    match layers[i].default_order {
        Some(o) => o as i128,
        None => i as i128,
    }
}

/// The manifest layers' indices in display order, bottom of the stack first:
/// by `default_order` (a layer without one takes its index), layers with
/// equal keys in manifest order.
pub fn default_layer_order(layers: &[Layer]) -> (res: Vec<usize>)
    ensures
        res@ == display_order(layers@, layers@.len()),
{
    let mut acc: Vec<usize> = Vec::new();
    let mut i: usize = 0;
    while i < layers.len()
        invariant
            i <= layers@.len(),
            acc@ == display_order(layers@, i as nat),
            forall|k: int| 0 <= k < acc@.len() ==> acc@[k] < i,
            acc@.len() == i,
        decreases layers@.len() - i,
    {
        let key = order_key_exec(layers, i);
        let mut pos: usize = 0;
        let mut t: usize = 0;
        while t < acc.len()
            invariant
                t <= acc@.len(),
                acc@.len() == i,
                i < layers@.len(),
                forall|k: int| 0 <= k < acc@.len() ==> acc@[k] < i,
                pos as nat == count_at_or_below(acc@.take(t as int), layers@, key as int),
                pos <= t,
            decreases acc@.len() - t,
        {
            assert(acc@.take(t + 1).drop_last() =~= acc@.take(t as int));
            if order_key_exec(layers, acc[t]) <= key {
                pos += 1;
            }
            t += 1;
        }
        assert(acc@.take(acc@.len() as int) =~= acc@);
        acc.insert(pos, i);
        i += 1;
    }
    acc
}

// ───────────────────────────── persisted layers ─────────────────────────────

/// Where a layer of the merged state comes from: a persisted layer, or a
/// default layer of the manifest.
#[derive(Debug, Clone, Copy, PartialEq, Eq, Structural)]
pub enum MergedLayer {
    Stored(usize),
    Default(usize),
}

pub open spec fn keys_view(v: Seq<String>) -> Seq<Seq<char>> {
    Seq::new(v.len(), |i: int| v[i]@)
}

/// The key of a merged layer.
pub open spec fn merged_key(stored: Seq<Seq<char>>, defaults: Seq<Seq<char>>, m: MergedLayer) -> Seq<char> {
    match m {
        MergedLayer::Stored(i) => stored[i as int],
        MergedLayer::Default(j) => defaults[j as int],
    }
}

pub open spec fn merged_keys(stored: Seq<Seq<char>>, defaults: Seq<Seq<char>>, ms: Seq<MergedLayer>) -> Seq<Seq<char>> {
    Seq::new(ms.len(), |i: int| merged_key(stored, defaults, ms[i]))
}

/// The first `n` persisted layers that the manifest still has, in order.
pub open spec fn kept_layers(stored: Seq<Seq<char>>, defaults: Seq<Seq<char>>, n: nat) -> Seq<MergedLayer>
    decreases n,
{
    if n == 0 {
        seq![]
    } else {
        let prev = kept_layers(stored, defaults, (n - 1) as nat);
        if defaults.contains(stored[n - 1]) { prev.push(MergedLayer::Stored((n - 1) as usize)) } else { prev }
    }
}

/// `base` with each of the first `n` default layers appended whose key is
/// not there yet.
pub open spec fn with_new_layers(stored: Seq<Seq<char>>, defaults: Seq<Seq<char>>, base: Seq<MergedLayer>, n: nat) -> Seq<MergedLayer>
    decreases n,
{
    if n == 0 {
        base
    } else {
        let acc = with_new_layers(stored, defaults, base, (n - 1) as nat);
        if merged_keys(stored, defaults, acc).contains(defaults[n - 1]) {
            acc
        } else {
            acc.push(MergedLayer::Default((n - 1) as usize))
        }
    }
}

/// Persisted layers merged against the manifest's by key: persisted layers
/// the manifest no longer has are dropped, the others keep their order, and
/// manifest layers that were not persisted are appended.
pub open spec fn merge_spec(stored: Seq<Seq<char>>, defaults: Seq<Seq<char>>) -> Seq<MergedLayer> {
    with_new_layers(stored, defaults, kept_layers(stored, defaults, stored.len()), defaults.len())
}

fn contains_key(keys: &[String], key: &[char]) -> (res: bool)
    ensures
        res == keys_view(keys@).contains(key@),
{
    let mut i: usize = 0;
    while i < keys.len()
        invariant
            i <= keys@.len(),
            forall|k: int| 0 <= k < i ==> keys@[k]@ != key@,
        decreases keys@.len() - i,
    {
        if eq_chars(&chars_of(keys[i].as_str()), key) {
            assert(keys_view(keys@)[i as int] == key@);
            return true;
        }
        i += 1;
    }
    proof {
        if keys_view(keys@).contains(key@) {
            let k = choose|k: int| 0 <= k < keys_view(keys@).len() && keys_view(keys@)[k] == key@;
            assert(keys@[k]@ == key@);
        }
    }
    false
}

fn merged_contains(stored: &[String], defaults: &[String], ms: &Vec<MergedLayer>, key: &[char]) -> (res: bool)
    requires
        forall|k: int| 0 <= k < ms@.len() ==> match #[trigger] ms@[k] {
            MergedLayer::Stored(i) => i < stored@.len(),
            MergedLayer::Default(j) => j < defaults@.len(),
        },
    ensures
        res == merged_keys(keys_view(stored@), keys_view(defaults@), ms@).contains(key@),
{
    let ghost mk = merged_keys(keys_view(stored@), keys_view(defaults@), ms@);
    let mut i: usize = 0;
    while i < ms.len()
        invariant
            i <= ms@.len(),
            mk == merged_keys(keys_view(stored@), keys_view(defaults@), ms@),
            forall|k: int| 0 <= k < ms@.len() ==> match #[trigger] ms@[k] {
                MergedLayer::Stored(i) => i < stored@.len(),
                MergedLayer::Default(j) => j < defaults@.len(),
            },
            forall|k: int| 0 <= k < i ==> mk[k] != key@,
        decreases ms@.len() - i,
    {
        let k = match ms[i] {
            MergedLayer::Stored(s) => chars_of(stored[s].as_str()),
            MergedLayer::Default(d) => chars_of(defaults[d].as_str()),
        };
        assert(k@ == mk[i as int]);
        if eq_chars(&k, key) {
            return true;
        }
        i += 1;
    }
    proof {
        if mk.contains(key@) {
            let k = choose|k: int| 0 <= k < mk.len() && mk[k] == key@;
            assert(mk[k] == key@);
        }
    }
    false
}

/// Merges the keys of persisted layers with those of the manifest's layers
/// (as [`merge_spec`] states), saying for each merged layer where it comes
/// from.
pub fn merge_layer_keys(stored: &[String], defaults: &[String]) -> (res: Vec<MergedLayer>)
    ensures
        res@ == merge_spec(keys_view(stored@), keys_view(defaults@)),
{
    let ghost sv = keys_view(stored@);
    let ghost dv = keys_view(defaults@);
    let mut out: Vec<MergedLayer> = Vec::new();
    let mut i: usize = 0;
    while i < stored.len()
        invariant
            i <= stored@.len(),
            sv == keys_view(stored@),
            dv == keys_view(defaults@),
            out@ == kept_layers(sv, dv, i as nat),
            forall|k: int| 0 <= k < out@.len() ==> match #[trigger] out@[k] {
                MergedLayer::Stored(s) => s < i,
                MergedLayer::Default(_) => false,
            },
        decreases stored@.len() - i,
    {
        let key = chars_of(stored[i].as_str());
        assert(sv[i as int] == key@);
        if contains_key(defaults, &key) {
            out.push(MergedLayer::Stored(i));
        }
        i += 1;
    }
    let ghost base = out@;
    let mut j: usize = 0;
    while j < defaults.len()
        invariant
            j <= defaults@.len(),
            sv == keys_view(stored@),
            dv == keys_view(defaults@),
            base == kept_layers(sv, dv, stored@.len()),
            out@ == with_new_layers(sv, dv, base, j as nat),
            forall|k: int| 0 <= k < out@.len() ==> match #[trigger] out@[k] {
                MergedLayer::Stored(s) => s < stored@.len(),
                MergedLayer::Default(d) => d < j,
            },
        decreases defaults@.len() - j,
    {
        let key = chars_of(defaults[j].as_str());
        assert(dv[j as int] == key@);
        if !merged_contains(stored, defaults, &out, &key) {
            out.push(MergedLayer::Default(j));
        }
        j += 1;
    }
    out
}

proof fn lemma_kept_are_in_manifest(stored: Seq<Seq<char>>, defaults: Seq<Seq<char>>, n: nat)
    requires
        n <= stored.len() <= usize::MAX,
    ensures
        forall|k: int| 0 <= k < kept_layers(stored, defaults, n).len() ==> (match #[trigger] kept_layers(stored, defaults, n)[k] {
            MergedLayer::Stored(i) => i < n && defaults.contains(stored[i as int]),
            MergedLayer::Default(_) => false,
        }),
    decreases n,
{
    if n > 0 {
        let m = (n - 1) as nat;
        lemma_kept_are_in_manifest(stored, defaults, m);
        let prev = kept_layers(stored, defaults, m);
        let res = kept_layers(stored, defaults, n);
        assert forall|k: int| 0 <= k < res.len() implies (match #[trigger] res[k] {
            MergedLayer::Stored(i) => i < n && defaults.contains(stored[i as int]),
            MergedLayer::Default(_) => false,
        }) by {
            if k < prev.len() {
                assert(res[k] == prev[k]);
            }
        }
    }
}

proof fn lemma_new_layers(stored: Seq<Seq<char>>, defaults: Seq<Seq<char>>, base: Seq<MergedLayer>, n: nat)
    requires
        n <= defaults.len() <= usize::MAX,
    ensures
        with_new_layers(stored, defaults, base, n).len() >= base.len(),
        forall|k: int| 0 <= k < base.len() ==> with_new_layers(stored, defaults, base, n)[k] == base[k],
        forall|k: int| base.len() <= k < with_new_layers(stored, defaults, base, n).len() ==> (match #[trigger] with_new_layers(stored, defaults, base, n)[k] {
            MergedLayer::Default(j) => j < n,
            MergedLayer::Stored(_) => false,
        }),
        forall|j: int| 0 <= j < n ==> merged_keys(stored, defaults, with_new_layers(stored, defaults, base, n)).contains(#[trigger] defaults[j]),
    decreases n,
{
    if n > 0 {
        let m = (n - 1) as nat;
        lemma_new_layers(stored, defaults, base, m);
        let acc = with_new_layers(stored, defaults, base, m);
        let res = with_new_layers(stored, defaults, base, n);
        if !merged_keys(stored, defaults, acc).contains(defaults[m as int]) {
            assert forall|j: int| 0 <= j < n implies merged_keys(stored, defaults, res).contains(#[trigger] defaults[j]) by {
                if j == m {
                    assert(merged_keys(stored, defaults, res)[acc.len() as int] == defaults[j]);
                } else {
                    let w = choose|w: int| 0 <= w < merged_keys(stored, defaults, acc).len() && merged_keys(stored, defaults, acc)[w] == defaults[j];
                    assert(merged_keys(stored, defaults, res)[w] == defaults[j]);
                }
            }
        }
    }
}

/// Merging keeps exactly the manifest's layers: every merged layer's key is
/// a key of the manifest, and every key of the manifest is among the merged
/// layers'; persisted layers that survive come first, in their order.
pub proof fn lemma_merge_matches_manifest(stored: Seq<Seq<char>>, defaults: Seq<Seq<char>>)
    requires
        stored.len() <= usize::MAX,
        defaults.len() <= usize::MAX,
    ensures
        forall|k: int| 0 <= k < merge_spec(stored, defaults).len()
            ==> defaults.contains(#[trigger] merged_keys(stored, defaults, merge_spec(stored, defaults))[k]),
        forall|j: int| 0 <= j < defaults.len()
            ==> merged_keys(stored, defaults, merge_spec(stored, defaults)).contains(#[trigger] defaults[j]),
        forall|k: int| 0 <= k < kept_layers(stored, defaults, stored.len()).len()
            ==> merge_spec(stored, defaults)[k] == #[trigger] kept_layers(stored, defaults, stored.len())[k],
{
    let base = kept_layers(stored, defaults, stored.len());
    lemma_kept_are_in_manifest(stored, defaults, stored.len());
    lemma_new_layers(stored, defaults, base, defaults.len());
    let res = merge_spec(stored, defaults);
    assert forall|k: int| 0 <= k < res.len() implies defaults.contains(#[trigger] merged_keys(stored, defaults, res)[k]) by {
        if k < base.len() {
            assert(res[k] == base[k]);
            match base[k] {
                MergedLayer::Stored(i) => {},
                MergedLayer::Default(_) => {},
            }
        } else {
            match res[k] {
                MergedLayer::Default(j) => {
                    assert(defaults[j as int] == merged_keys(stored, defaults, res)[k]);
                },
                MergedLayer::Stored(_) => {},
            }
        }
    }
}

/// The layers listed in `acc` are in non-decreasing key order.
pub open spec fn keys_sorted(acc: Seq<usize>, layers: Seq<Layer>) -> bool {
    forall|a: int, b: int| 0 <= a < b < acc.len() ==> order_key(layers, acc[a] as int) <= order_key(layers, acc[b] as int)
}

proof fn lemma_count_is_partition(acc: Seq<usize>, layers: Seq<Layer>, key: int)
    requires
        keys_sorted(acc, layers),
    ensures
        count_at_or_below(acc, layers, key) <= acc.len(),
        forall|k: int| 0 <= k < count_at_or_below(acc, layers, key) ==> order_key(layers, acc[k] as int) <= key,
        forall|k: int| count_at_or_below(acc, layers, key) <= k < acc.len() ==> order_key(layers, acc[k] as int) > key,
    decreases acc.len(),
{
    if acc.len() > 0 {
        let t = acc.drop_last();
        assert(keys_sorted(t, layers)) by {
            assert forall|a: int, b: int| 0 <= a < b < t.len() implies order_key(layers, t[a] as int) <= order_key(layers, t[b] as int) by {
                assert(t[a] == acc[a] && t[b] == acc[b]);
            }
        }
        lemma_count_is_partition(t, layers, key);
        let last = acc.len() - 1;
        assert(acc.last() == acc[last]);
        if order_key(layers, acc[last] as int) <= key {
            assert forall|k: int| 0 <= k < count_at_or_below(acc, layers, key) implies order_key(layers, acc[k] as int) <= key by {
                if k < last {
                    assert(order_key(layers, acc[k] as int) <= order_key(layers, acc[last] as int));
                }
            }
            if count_at_or_below(t, layers, key) < t.len() {
                let k = count_at_or_below(t, layers, key) as int;
                assert(t[k] == acc[k]);
                assert(order_key(layers, acc[k] as int) <= order_key(layers, acc[last] as int));
            }
        } else {
            assert forall|k: int| 0 <= k < count_at_or_below(acc, layers, key) implies order_key(layers, acc[k] as int) <= key by {
                assert(t[k] == acc[k]);
            }
            assert forall|k: int| count_at_or_below(acc, layers, key) <= k < acc.len() implies order_key(layers, acc[k] as int) > key by {
                if k < last {
                    assert(t[k] == acc[k]);
                }
            }
        }
    }
}

/// The default layer order lists every manifest layer once, sorted by order
/// key, and layers with equal keys keep their manifest order (the sort is
/// stable).
pub proof fn lemma_display_order(layers: Seq<Layer>, n: nat)
    requires
        n <= layers.len(),
        n <= usize::MAX,
    ensures
        display_order(layers, n).len() == n,
        keys_sorted(display_order(layers, n), layers),
        forall|k: int| 0 <= k < n ==> (#[trigger] display_order(layers, n)[k]) < n,
        forall|i: usize| i < n ==> #[trigger] display_order(layers, n).contains(i),
        forall|a: int, b: int| 0 <= a < b < n && order_key(layers, display_order(layers, n)[a] as int)
            == order_key(layers, display_order(layers, n)[b] as int)
            ==> display_order(layers, n)[a] < display_order(layers, n)[b],
    decreases n,
{
    if n > 0 {
        let m = (n - 1) as nat;
        lemma_display_order(layers, m);
        let acc = display_order(layers, m);
        let i = m as int;
        let key = order_key(layers, i);
        lemma_count_is_partition(acc, layers, key);
        let p = count_at_or_below(acc, layers, key) as int;
        let res = display_order(layers, n);
        assert(res == acc.insert(p, i as usize));
        assert forall|a: int, b: int| 0 <= a < b < res.len() implies order_key(layers, res[a] as int) <= order_key(layers, res[b] as int) by {
            if a < p && b < p {
                assert(res[a] == acc[a] && res[b] == acc[b]);
            } else if a < p && b == p {
                assert(res[a] == acc[a]);
            } else if a < p {
                assert(res[a] == acc[a] && res[b] == acc[b - 1]);
            } else if a == p {
                assert(res[b] == acc[b - 1]);
            } else {
                assert(res[a] == acc[a - 1] && res[b] == acc[b - 1]);
            }
        }
        assert forall|k: int| 0 <= k < n implies (#[trigger] res[k]) < n by {
            if k < p {
                assert(res[k] == acc[k]);
            } else if k > p {
                assert(res[k] == acc[k - 1]);
            }
        }
        assert forall|j: usize| j < n implies #[trigger] res.contains(j) by {
            if j == i {
                assert(res[p] == i as usize);
            } else {
                assert(acc.contains(j));
                let w = choose|w: int| 0 <= w < acc.len() && acc[w] == j;
                if w < p {
                    assert(res[w] == acc[w]);
                } else {
                    assert(res[w + 1] == acc[w]);
                }
            }
        }
        assert forall|a: int, b: int| 0 <= a < b < n && order_key(layers, res[a] as int) == order_key(layers, res[b] as int)
            implies res[a] < res[b] by {
            if a < p && b < p {
                assert(res[a] == acc[a] && res[b] == acc[b]);
            } else if a < p && b == p {
                assert(res[a] == acc[a]);
            } else if a < p {
                assert(res[a] == acc[a] && res[b] == acc[b - 1]);
            } else if a == p {
                assert(res[b] == acc[b - 1]);
            } else {
                assert(res[a] == acc[a - 1] && res[b] == acc[b - 1]);
            }
        }
    }
}

} // verus!
