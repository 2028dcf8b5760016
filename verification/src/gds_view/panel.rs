//! Pure pieces of the viewer's layer panel: counts printed with thousands
//! separators, and moving a layer to another place in the list.
use vstd::prelude::*;

use crate::text::{decimal, decimal_chars, digit_char, push_char};

verus! {

/// The first `k` characters of the digit string `d`, with a comma before
/// each digit (but the first) that starts a group of three counted from the
/// right end of `d`.
pub open spec fn grouped(d: Seq<char>, k: nat) -> Seq<char>
    decreases k,
{
    if k == 0 {
        seq![]
    } else {
        let i = k - 1;
        let sep: Seq<char> = if i > 0 && (d.len() - i) % 3 == 0 { seq![','] } else { seq![] };
        grouped(d, i as nat) + sep + seq![d[i]]
    }
}

/// A count with thousands separators, such as `1,234,567`.
pub fn format_count(n: u64) -> (res: String)
    ensures
        res@ == grouped(decimal(n as nat), decimal(n as nat).len()),
{
    let digits = decimal_chars(n);
    let ghost d = digits@;
    let mut out = String::new();
    let mut i: usize = 0;
    assert(out@ =~= grouped(d, 0));
    while i < digits.len()
        invariant
            i <= d.len(),
            d == digits@,
            out@ == grouped(d, i as nat),
        decreases d.len() - i,
    {
        if i > 0 && (digits.len() - i) % 3 == 0 {
            push_char(&mut out, ',');
        }
        push_char(&mut out, digits[i]);
        assert(out@ =~= grouped(d, (i + 1) as nat));
        i += 1;
    }
    out
}

/// Separators are the only thing added: dropping the commas gives the
/// digits back.
pub proof fn lemma_grouped_keeps_digits(d: Seq<char>, k: nat)
    requires
        k <= d.len(),
        forall|j: int| 0 <= j < d.len() ==> d[j] != ',',
    ensures
        grouped(d, k).filter(|c: char| c != ',') == d.take(k as int),
    decreases k,
{
    let f = |c: char| c != ',';
    if k == 0 {
        assert(grouped(d, 0).filter(f) =~= Seq::<char>::empty()) by {
            reveal_with_fuel(Seq::filter, 1);
        }
        assert(d.take(0) =~= Seq::<char>::empty());
    } else {
        let i = (k - 1) as nat;
        lemma_grouped_keeps_digits(d, i);
        let sep: Seq<char> = if i > 0 && (d.len() - i) % 3 == 0 { seq![','] } else { seq![] };
        Seq::filter_distributes_over_add(grouped(d, i) + sep, seq![d[i as int]], f);
        Seq::filter_distributes_over_add(grouped(d, i), sep, f);
        assert(sep.filter(f) =~= Seq::<char>::empty()) by {
            reveal_with_fuel(Seq::filter, 2);
            if sep.len() == 1 {
                assert(sep.drop_last() =~= Seq::<char>::empty());
            }
        }
        assert(seq![d[i as int]].filter(f) =~= seq![d[i as int]]) by {
            reveal_with_fuel(Seq::filter, 2);
            assert(seq![d[i as int]].drop_last() =~= Seq::<char>::empty());
        }
        assert(d.take(k as int) =~= d.take(i as int).push(d[i as int]));
        assert(grouped(d, i).filter(f) + Seq::<char>::empty() =~= grouped(d, i).filter(f));
    }
}

/// Moves the item at `from` to position `to` (the others keep their order)
/// and says whether anything moved: nothing does when the two are equal or
/// either is out of range.
pub fn reorder_layer<T>(layers: &mut Vec<T>, from: usize, to: usize) -> (moved: bool)
    ensures
        moved == (from != to && from < old(layers)@.len() && to < old(layers)@.len()),
        moved ==> final(layers)@ == old(layers)@.remove(from as int).insert(to as int, old(layers)@[from as int]),
        !moved ==> final(layers)@ == old(layers)@,
{
    if from == to {
        return false;
    }
    if from < layers.len() && to < layers.len() {
        let item = layers.remove(from);
        layers.insert(to, item);
        true
    } else {
        false
    }
}

/// Moving a layer keeps the same layers: the list after the move holds each
/// item as often as before.
pub proof fn lemma_reorder_keeps_layers<T>(layers: Seq<T>, from: int, to: int)
    requires
        0 <= from < layers.len(),
        0 <= to < layers.len(),
    ensures
        layers.remove(from).insert(to, layers[from]).to_multiset() == layers.to_multiset(),
        layers.remove(from).insert(to, layers[from])[to] == layers[from],
        layers.remove(from).insert(to, layers[from]).len() == layers.len(),
{
    vstd::seq_lib::to_multiset_remove(layers, from);
    vstd::seq_lib::to_multiset_insert(layers.remove(from), to, layers[from]);
    broadcast use vstd::multiset::group_multiset_axioms;
    assert(layers.to_multiset().remove(layers[from]).insert(layers[from]) =~= layers.to_multiset()) by {
        vstd::seq_lib::to_multiset_contains(layers, layers[from]);
        assert(layers.contains(layers[from]));
    }
}

proof fn lemma_decimal_has_no_comma(n: nat)
    ensures
        forall|j: int| 0 <= j < decimal(n).len() ==> decimal(n)[j] != ',',
    decreases n,
{
    let c = digit_char(n % 10);
    assert(c as int == n % 10 + 48);
    assert(',' as int == 44);
    if n >= 10 {
        lemma_decimal_has_no_comma(n / 10);
        assert forall|j: int| 0 <= j < decimal(n).len() implies decimal(n)[j] != ',' by {
            if j < decimal(n / 10).len() {
                assert(decimal(n)[j] == decimal(n / 10)[j]);
            } else {
                assert(decimal(n)[j] == c);
            }
        }
    } else {
        assert(n % 10 == n);
        assert(decimal(n)[0] == c);
    }
}

/// A printed count reads as the plain decimal number once its separators
/// are dropped.
pub proof fn lemma_format_count_digits(n: nat)
    ensures
        grouped(decimal(n), decimal(n).len()).filter(|c: char| c != ',') == decimal(n),
{
    lemma_decimal_has_no_comma(n);
    lemma_grouped_keeps_digits(decimal(n), decimal(n).len());
    assert(decimal(n).take(decimal(n).len() as int) =~= decimal(n));
}

} // verus!
