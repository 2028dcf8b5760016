//! Spatial index of the GDSII tile pipeline.
//!
//! A k-d-style binary space partition over record extents, used to answer
//! per-tile box queries without scanning every record. Splits alternate X/Y
//! at the median of record centroids.
//!
//! It is a **loose** partition: a record whose extent straddles a cut plane is
//! referenced from *both* children, so a query that prunes by the cut can
//! never miss a straddler. Queries deduplicate through a visited set.
use vstd::prelude::*;

use super::tile::{box_is_empty, boxes_intersect, united, WorldBox};

verus! {

/// Records per leaf before splitting stops.
pub const LEAF_CAP: usize = 64;
/// Maximum tree depth (bounds recursion and the number of nodes).
pub const MAX_DEPTH: usize = 24;

/// The axis a split node cuts.
#[derive(Debug, Clone, Copy, PartialEq, Eq, Structural)]
pub enum Axis {
    X,
    Y,
}

/// A node of the index arena. Children are stored before their parent.
#[derive(Debug)]
pub enum BspNode {
    Leaf { record_ids: Vec<u32> },
    Split { axis: Axis, cut: i64, below: u32, above: u32 },
}

/// A spatial index over record extents. Nodes form an arena.
#[derive(Debug)]
pub struct BspIndex {
    pub bounds: WorldBox,
    root: u32,
    nodes: Vec<BspNode>,
    boxes: Vec<WorldBox>,
}

// ───────────────────────────── specifications ─────────────────────────────

/// The extent of a box along an axis.
pub open spec fn axis_range(b: WorldBox, axis: Axis) -> (i64, i64) {
    match axis {
        Axis::X => (b.minx, b.maxx),
        Axis::Y => (b.miny, b.maxy),
    }
}

/// A box whose minimum is at most its maximum on both axes.
pub open spec fn is_proper(b: WorldBox) -> bool {
    b.minx <= b.maxx && b.miny <= b.maxy
}

/// Every box has a centroid that `i64` arithmetic can compute.
pub open spec fn centroids_fit(boxes: Seq<WorldBox>) -> bool {
    forall|i: int|
        0 <= i < boxes.len() ==> i64::MIN <= #[trigger] boxes[i].minx + boxes[i].maxx <= i64::MAX
            && i64::MIN <= boxes[i].miny + boxes[i].maxy <= i64::MAX
}

/// A node refers only to boxes that exist and to children stored before it.
pub open spec fn node_ok(node: BspNode, k: int, n: nat) -> bool {
    match node {
        BspNode::Leaf { record_ids } => forall|j: int| 0 <= j < record_ids@.len() ==> #[trigger] record_ids@[j] < n,
        BspNode::Split { below, above, .. } => below < k && above < k,
    }
}

/// Every node of the arena is well formed.
pub open spec fn arena_ok(nodes: Seq<BspNode>, n: nat) -> bool {
    forall|k: int| 0 <= k < nodes.len() ==> node_ok(#[trigger] nodes[k], k, n)
}

/// The records a query for `q` reports from node `k`: those of a leaf whose
/// extent meets `q`, and for a split the reports of the child below the cut
/// when `q` starts before it and of the child above when `q` ends at or
/// after it.
pub open spec fn found(nodes: Seq<BspNode>, boxes: Seq<WorldBox>, k: int, q: WorldBox) -> Set<u32>
    decreases k,
{
    if k < 0 || k >= nodes.len() {
        Set::empty()
    } else {
        match nodes[k] {
            BspNode::Leaf { record_ids } => Set::new(
                |id: u32| record_ids@.contains(id) && id < boxes.len() && boxes_intersect(boxes[id as int], q),
            ),
            BspNode::Split { axis, cut, below, above } => {
                let (qmin, qmax) = axis_range(q, axis);
                let b = if qmin < cut && (below as int) < k {
                    found(nodes, boxes, below as int, q)
                } else {
                    Set::empty()
                };
                let a = if qmax >= cut && (above as int) < k {
                    found(nodes, boxes, above as int, q)
                } else {
                    Set::empty()
                };
                b.union(a)
            },
        }
    }
}

/// A query from node `k` reports every record of `ids` whose proper extent
/// meets a proper query box.
pub open spec fn covers(nodes: Seq<BspNode>, boxes: Seq<WorldBox>, k: int, ids: Seq<u32>) -> bool {
    forall|q: WorldBox, id: u32|
        is_proper(q) && ids.contains(id) && id < boxes.len() && is_proper(boxes[id as int])
            && boxes_intersect(boxes[id as int], q) ==> #[trigger] found(nodes, boxes, k, q).contains(id)
}

/// `2^e`.
pub open spec fn pow2n(e: nat) -> nat
    decreases e,
{
    if e == 0 {
        1
    } else {
        2 * pow2n((e - 1) as nat)
    }
}

/// The extent of all boxes together.
pub open spec fn bounds_of(boxes: Seq<WorldBox>) -> WorldBox
    decreases boxes.len(),
{
    if boxes.len() == 0 {
        WorldBox { minx: i64::MAX, miny: i64::MAX, maxx: i64::MIN, maxy: i64::MIN }
    } else {
        united(bounds_of(boxes.drop_last()), boxes.last())
    }
}

// ───────────────────────────── lemmas ─────────────────────────────

/// Nodes stored after node `k` do not change what a query from `k` reports.
pub proof fn lemma_found_prefix(small: Seq<BspNode>, big: Seq<BspNode>, boxes: Seq<WorldBox>, k: int, q: WorldBox)
    requires
        small == big.take(small.len() as int),
        small.len() <= big.len(),
        0 <= k < small.len(),
    ensures
        found(big, boxes, k, q) == found(small, boxes, k, q),
    decreases k,
{
    assert(big[k] == small[k]);
    match small[k] {
        BspNode::Leaf { .. } => {},
        BspNode::Split { axis, cut, below, above } => {
            if (below as int) < k {
                lemma_found_prefix(small, big, boxes, below as int, q);
            }
            if (above as int) < k {
                lemma_found_prefix(small, big, boxes, above as int, q);
            }
        },
    }
}

/// Growing the arena keeps a subtree's coverage.
pub proof fn lemma_covers_prefix(small: Seq<BspNode>, big: Seq<BspNode>, boxes: Seq<WorldBox>, k: int, ids: Seq<u32>)
    requires
        small == big.take(small.len() as int),
        small.len() <= big.len(),
        0 <= k < small.len(),
        covers(small, boxes, k, ids),
    ensures
        covers(big, boxes, k, ids),
{
    assert forall|q: WorldBox, id: u32|
        is_proper(q) && ids.contains(id) && id < boxes.len() && is_proper(boxes[id as int])
            && boxes_intersect(boxes[id as int], q) implies #[trigger] found(big, boxes, k, q).contains(id) by {
        lemma_found_prefix(small, big, boxes, k, q);
        assert(found(small, boxes, k, q).contains(id));
    }
}

/// A query reports only records that exist and whose extent meets the query.
pub proof fn lemma_found_sound(nodes: Seq<BspNode>, boxes: Seq<WorldBox>, k: int, q: WorldBox, id: u32)
    requires
        found(nodes, boxes, k, q).contains(id),
    ensures
        id < boxes.len() && boxes_intersect(boxes[id as int], q),
    decreases k,
{
    match nodes[k] {
        BspNode::Leaf { .. } => {},
        BspNode::Split { axis, cut, below, above } => {
            let (qmin, qmax) = axis_range(q, axis);
            if qmin < cut && (below as int) < k && found(nodes, boxes, below as int, q).contains(id) {
                lemma_found_sound(nodes, boxes, below as int, q, id);
            } else {
                lemma_found_sound(nodes, boxes, above as int, q, id);
            }
        },
    }
}

// ───────────────────────────── building ─────────────────────────────

/// Calls `slice::sort_unstable`, which sorts in ascending order; the values
/// are kept, only their order changes.
#[verifier::external_body]
fn sort_values(v: &mut Vec<i64>)
    ensures
        final(v)@.to_multiset() == old(v)@.to_multiset(),
        final(v)@.len() == old(v)@.len(),
        forall|i: int, j: int| 0 <= i <= j < final(v)@.len() ==> final(v)@[i] <= final(v)@[j],
{
    v.sort_unstable();
}

/// Pushes a leaf holding `ids` and returns its index.
fn push_leaf(nodes: &mut Vec<BspNode>, ids: Vec<u32>, Ghost(boxes): Ghost<Seq<WorldBox>>) -> (idx: u32)
    requires
        arena_ok(old(nodes)@, boxes.len()),
        forall|j: int| 0 <= j < ids@.len() ==> #[trigger] ids@[j] < boxes.len(),
        old(nodes).len() < u32::MAX,
    ensures
        final(nodes)@ == old(nodes)@.push(BspNode::Leaf { record_ids: ids }),
        idx == old(nodes).len(),
        arena_ok(final(nodes)@, boxes.len()),
        covers(final(nodes)@, boxes, idx as int, ids@),
{
    let idx = nodes.len() as u32;
    let ghost idsv = ids@;
    nodes.push(BspNode::Leaf { record_ids: ids });
    proof {
        let ns = nodes@;
        assert forall|k: int| 0 <= k < ns.len() implies node_ok(#[trigger] ns[k], k, boxes.len()) by {
            if k < ns.len() - 1 {
                assert(ns[k] == old(nodes)@[k]);
            }
        }
        assert forall|q: WorldBox, id: u32|
            is_proper(q) && idsv.contains(id) && id < boxes.len() && is_proper(boxes[id as int])
                && boxes_intersect(boxes[id as int], q) implies #[trigger] found(ns, boxes, idx as int, q).contains(id) by {
        }
    }
    idx
}

/// Builds a subtree over `ids`, returning the arena index of its root node.
/// Children are pushed before their parent, so the returned index is the
/// last node pushed for this subtree.
fn build_node(boxes: &Vec<WorldBox>, ids: Vec<u32>, depth: usize, nodes: &mut Vec<BspNode>) -> (idx: u32)
    requires
        arena_ok(old(nodes)@, boxes@.len()),
        forall|j: int| 0 <= j < ids@.len() ==> #[trigger] ids@[j] < boxes.len(),
        centroids_fit(boxes@),
        depth <= MAX_DEPTH,
        old(nodes).len() + pow2n((MAX_DEPTH + 1 - depth) as nat) <= u32::MAX,
    ensures
        final(nodes)@.take(old(nodes).len() as int) == old(nodes)@,
        old(nodes).len() <= idx < final(nodes).len(),
        final(nodes).len() < old(nodes).len() + pow2n((MAX_DEPTH + 1 - depth) as nat),
        arena_ok(final(nodes)@, boxes@.len()),
        covers(final(nodes)@, boxes@, idx as int, ids@),
    decreases ids.len(),
{
    proof {
        reveal_with_fuel(pow2n, 2);
        assert(pow2n((MAX_DEPTH + 1 - depth) as nat) >= 1) by {
            lemma_pow2n_positive((MAX_DEPTH + 1 - depth) as nat);
        }
    }
    if ids.len() <= LEAF_CAP || depth >= MAX_DEPTH {
        let idx = push_leaf(nodes, ids, Ghost(boxes@));
        assert(nodes@.take(old(nodes).len() as int) == old(nodes)@);
        return idx;
    }
    let axis = if depth % 2 == 0 { Axis::X } else { Axis::Y };

    // Cut at the median of record centroids along the chosen axis.
    let mut centroids: Vec<i64> = Vec::new();
    let mut k: usize = 0;
    while k < ids.len()
        invariant
            k <= ids.len(),
            centroids.len() == k,
            forall|j: int| 0 <= j < ids@.len() ==> #[trigger] ids@[j] < boxes.len(),
            centroids_fit(boxes@),
        decreases ids.len() - k,
    {
        let b = &boxes[ids[k] as usize];
        let c = match axis {
            Axis::X => (b.minx + b.maxx) / 2,
            Axis::Y => (b.miny + b.maxy) / 2,
        };
        centroids.push(c);
        k += 1;
    }
    sort_values(&mut centroids);
    let cut = centroids[centroids.len() / 2];

    // Loose partition by extent: a record is below if it starts before the
    // cut and above if it ends at or after the cut; straddlers go to both.
    let mut below: Vec<u32> = Vec::new();
    let mut above: Vec<u32> = Vec::new();
    let mut k: usize = 0;
    while k < ids.len()
        invariant
            k <= ids.len(),
            below.len() <= k,
            above.len() <= k,
            forall|j: int| 0 <= j < ids@.len() ==> #[trigger] ids@[j] < boxes.len(),
            forall|j: int| 0 <= j < below@.len() ==> #[trigger] below@[j] < boxes.len(),
            forall|j: int| 0 <= j < above@.len() ==> #[trigger] above@[j] < boxes.len(),
            forall|j: int|
                0 <= j < k ==> (axis_range(boxes@[ids@[j] as int], axis).0 < cut ==> below@.contains(
                    #[trigger] ids@[j],
                )),
            forall|j: int|
                0 <= j < k ==> (axis_range(boxes@[ids@[j] as int], axis).1 >= cut ==> above@.contains(
                    #[trigger] ids@[j],
                )),
        decreases ids.len() - k,
    {
        let id = ids[k];
        let b = &boxes[id as usize];
        let (lo, hi) = match axis {
            Axis::X => (b.minx, b.maxx),
            Axis::Y => (b.miny, b.maxy),
        };
        let ghost old_below = below@;
        let ghost old_above = above@;
        if lo < cut {
            below.push(id);
        }
        if hi >= cut {
            above.push(id);
        }
        proof {
            assert forall|j: int|
                0 <= j < k + 1 implies (axis_range(boxes@[ids@[j] as int], axis).0 < cut ==> below@.contains(
                    #[trigger] ids@[j],
                )) by {
                if j < k && axis_range(boxes@[ids@[j] as int], axis).0 < cut {
                    let w = choose|w: int| 0 <= w < old_below.len() && old_below[w] == ids@[j];
                    assert(below@[w] == old_below[w]);
                }
                if j == k && lo < cut {
                    assert(below@[below@.len() - 1] == id);
                }
            }
            assert forall|j: int|
                0 <= j < k + 1 implies (axis_range(boxes@[ids@[j] as int], axis).1 >= cut ==> above@.contains(
                    #[trigger] ids@[j],
                )) by {
                if j < k && axis_range(boxes@[ids@[j] as int], axis).1 >= cut {
                    let w = choose|w: int| 0 <= w < old_above.len() && old_above[w] == ids@[j];
                    assert(above@[w] == old_above[w]);
                }
                if j == k && hi >= cut {
                    assert(above@[above@.len() - 1] == id);
                }
            }
        }
        k += 1;
    }

    // Stop if the split makes no progress (a child equals the parent, e.g. all
    // records straddle): this keeps the recursion strictly decreasing.
    if below.len() == ids.len() || above.len() == ids.len() || below.len() == 0 || above.len() == 0 {
        let idx = push_leaf(nodes, ids, Ghost(boxes@));
        assert(nodes@.take(old(nodes).len() as int) == old(nodes)@);
        return idx;
    }
    let ghost n0 = nodes@;
    let ghost below_ids = below@;
    let ghost above_ids = above@;
    proof {
        lemma_pow2n_step((MAX_DEPTH - depth) as nat);
    }
    let below_idx = build_node(boxes, below, depth + 1, nodes);
    let ghost n1 = nodes@;
    let above_idx = build_node(boxes, above, depth + 1, nodes);
    let ghost n2 = nodes@;
    proof {
        assert(n2.take(n0.len() as int) == n0) by {
            assert(n2.take(n1.len() as int).take(n0.len() as int) == n1.take(n0.len() as int));
        }
        lemma_covers_prefix(n1, n2, boxes@, below_idx as int, below_ids);
    }
    let idx = nodes.len() as u32;
    nodes.push(BspNode::Split { axis, cut, below: below_idx, above: above_idx });
    proof {
        let n3 = nodes@;
        assert(n3.take(n2.len() as int) == n2);
        assert(n3.take(n0.len() as int) == n0) by {
            assert(n3.take(n2.len() as int).take(n0.len() as int) == n2.take(n0.len() as int));
        }
        assert forall|kk: int| 0 <= kk < n3.len() implies node_ok(#[trigger] n3[kk], kk, boxes@.len()) by {
            if kk < n3.len() - 1 {
                assert(n3[kk] == n2[kk]);
            }
        }
        lemma_covers_prefix(n2, n3, boxes@, below_idx as int, below_ids);
        lemma_covers_prefix(n2, n3, boxes@, above_idx as int, above_ids);
        assert forall|q: WorldBox, id: u32|
            is_proper(q) && ids@.contains(id) && id < boxes.len() && is_proper(boxes@[id as int])
                && boxes_intersect(boxes@[id as int], q) implies #[trigger] found(n3, boxes@, idx as int, q).contains(id) by {
            let j = choose|j: int| 0 <= j < ids@.len() && ids@[j] == id;
            let (lo, hi) = axis_range(boxes@[id as int], axis);
            let (qmin, qmax) = axis_range(q, axis);
            if lo < cut {
                assert(below_ids.contains(ids@[j]));
                if qmin < cut {
                    assert(found(n3, boxes@, below_idx as int, q).contains(id));
                } else {
                    assert(above_ids.contains(ids@[j]));
                    assert(found(n3, boxes@, above_idx as int, q).contains(id));
                }
            } else {
                assert(above_ids.contains(ids@[j]));
                assert(found(n3, boxes@, above_idx as int, q).contains(id));
            }
        }
    }
    idx
}

/// `2^e` is positive.
pub proof fn lemma_pow2n_positive(e: nat)
    ensures
        pow2n(e) >= 1,
    decreases e,
{
    if e > 0 {
        lemma_pow2n_positive((e - 1) as nat);
    }
}

/// `2^(e+1) = 2 * 2^e`.
pub proof fn lemma_pow2n_step(e: nat)
    ensures
        pow2n(e + 1) == 2 * pow2n(e),
{
}

// ───────────────────────────── index ─────────────────────────────

/// The ids `0..n`.
pub open spec fn ids_upto(n: nat) -> Seq<u32> {
    Seq::new(n, |i: int| i as u32)
}

/// The records whose extent meets `q`, found by looking at every one.
pub open spec fn brute_force(boxes: Seq<WorldBox>, q: WorldBox) -> Set<u32> {
    Set::new(|id: u32| id < boxes.len() && boxes_intersect(boxes[id as int], q))
}

/// The ids a query has reported so far and the visited marks agree, and no
/// id is reported twice.
pub open spec fn report_ok(out: Seq<u32>, visited: Seq<bool>) -> bool {
    &&& out.no_duplicates()
    &&& forall|j: int| 0 <= j < out.len() ==> #[trigger] out[j] < visited.len()
    &&& forall|i: int| 0 <= i < visited.len() ==> (#[trigger] visited[i] <==> out.contains(i as u32))
}

impl BspIndex {
    /// The record extents the index was built over, by id.
    pub closed spec fn extents(&self) -> Seq<WorldBox> {
        self.boxes@
    }

    /// The `bounds` field: the extent of all records together.
    pub closed spec fn bounds_spec(&self) -> WorldBox {
        self.bounds
    }

    /// The arena is well formed and a query from the root reports every
    /// record whose proper extent meets a proper query box.
    pub closed spec fn wf(&self) -> bool {
        &&& arena_ok(self.nodes@, self.boxes@.len())
        &&& self.boxes@.len() <= u32::MAX
        &&& (self.nodes@.len() == 0 <==> self.boxes@.len() == 0)
        &&& self.nodes@.len() > 0 ==> {
            &&& self.root < self.nodes@.len()
            &&& covers(self.nodes@, self.boxes@, self.root as int, ids_upto(self.boxes@.len()))
        }
    }

    /// Builds an index over record extents, given by record id.
    pub fn build(boxes: Vec<WorldBox>) -> (res: Self)
        requires
            boxes.len() <= u32::MAX,
            centroids_fit(boxes@),
        ensures
            res.wf(),
            res.extents() == boxes@,
            res.bounds_spec() == bounds_of(boxes@),
    {
        let mut bounds = WorldBox::empty();
        let mut i: usize = 0;
        while i < boxes.len()
            invariant
                i <= boxes.len(),
                bounds == bounds_of(boxes@.take(i as int)),
            decreases boxes.len() - i,
        {
            assert(boxes@.take(i + 1).drop_last() == boxes@.take(i as int));
            bounds.union(&boxes[i]);
            i += 1;
        }
        assert(boxes@.take(boxes.len() as int) == boxes@);
        let mut nodes: Vec<BspNode> = Vec::new();
        let root = if boxes.len() == 0 {
            0
        } else {
            let mut ids: Vec<u32> = Vec::new();
            let n = boxes.len() as u32;
            let mut k: u32 = 0;
            while k < n
                invariant
                    k <= n,
                    n == boxes.len(),
                    ids@ == ids_upto(k as nat),
                decreases n - k,
            {
                ids.push(k);
                k += 1;
                assert(ids@ == ids_upto(k as nat));
            }
            proof {
                reveal_with_fuel(pow2n, 26);
                assert(pow2n(25) == 33554432);
            }
            build_node(&boxes, ids, 0, &mut nodes)
        };
        BspIndex { bounds, root, nodes, boxes }
    }

    /// The number of records indexed.
    pub fn len(&self) -> (res: usize)
        ensures
            res == self.extents().len(),
    {
        self.boxes.len()
    }

    /// Whether the index holds no record.
    pub fn is_empty(&self) -> (res: bool)
        ensures
            res == (self.extents().len() == 0),
    {
        self.boxes.len() == 0
    }

    /// Number of arena nodes (for tests and introspection).
    pub fn node_count(&self) -> (res: usize)
        requires
            self.wf(),
        ensures
            res == 0 <==> self.extents().len() == 0,
    {
        self.nodes.len()
    }

    /// Record ids whose extent intersects `q`, each once, in no particular
    /// order. Every reported record meets `q`; when `q` is a proper box,
    /// every record with a proper extent that meets `q` is reported, whatever
    /// the other extents are. (An inverted extent, whose minimum lies past its
    /// maximum, can fall in neither half of a cut and may go unreported.)
    pub fn query(&self, q: &WorldBox) -> (res: Vec<u32>)
        requires
            self.wf(),
        ensures
            res@.no_duplicates(),
            forall|id: u32| #[trigger] res@.contains(id) ==> brute_force(self.extents(), *q).contains(id),
            is_proper(*q) ==> forall|id: u32|
                #[trigger] brute_force(self.extents(), *q).contains(id) && is_proper(self.extents()[id as int])
                    ==> res@.contains(id),
    {
        let mut out: Vec<u32> = Vec::new();
        if self.nodes.len() == 0 {
            return out;
        }
        let mut visited: Vec<bool> = Vec::new();
        let mut i: usize = 0;
        while i < self.boxes.len()
            invariant
                i <= self.boxes.len(),
                visited.len() == i,
                forall|j: int| 0 <= j < i ==> !(#[trigger] visited@[j]),
            decreases self.boxes.len() - i,
        {
            visited.push(false);
            i += 1;
        }
        self.query_node(self.root as usize, q, &mut visited, &mut out);
        proof {
            assert forall|id: u32| #[trigger] out@.contains(id) implies brute_force(self.boxes@, *q).contains(id) by {
                lemma_found_sound(self.nodes@, self.boxes@, self.root as int, *q, id);
            }
            if is_proper(*q) {
                assert forall|id: u32|
                    #[trigger] brute_force(self.boxes@, *q).contains(id) && is_proper(self.boxes@[id as int])
                        implies out@.contains(id) by {
                    assert(ids_upto(self.boxes@.len())[id as int] == id);
                    assert(ids_upto(self.boxes@.len()).contains(id));
                    assert(found(self.nodes@, self.boxes@, self.root as int, *q).contains(id));
                }
            }
        }
        out
    }

    /// Reports the records a query for `q` finds from `node` that were not
    /// reported yet.
    fn query_node(&self, node: usize, q: &WorldBox, visited: &mut Vec<bool>, out: &mut Vec<u32>)
        requires
            self.wf(),
            node < self.nodes@.len(),
            old(visited).len() == self.boxes@.len(),
            report_ok(old(out)@, old(visited)@),
        ensures
            final(visited).len() == self.boxes@.len(),
            report_ok(final(out)@, final(visited)@),
            forall|id: u32| #[trigger] final(out)@.contains(id) <==> (old(out)@.contains(id) || found(
                self.nodes@,
                self.boxes@,
                node as int,
                *q,
            ).contains(id)),
        decreases node,
    {
        assert(node_ok(self.nodes@[node as int], node as int, self.boxes@.len()));
        match &self.nodes[node] {
            BspNode::Leaf { record_ids } => {
                let ghost start = out@;
                let mut k: usize = 0;
                while k < record_ids.len()
                    invariant
                        k <= record_ids.len(),
                        self.wf(),
                        forall|j: int| 0 <= j < record_ids@.len() ==> #[trigger] record_ids@[j] < self.boxes@.len(),
                        visited.len() == self.boxes@.len(),
                        report_ok(out@, visited@),
                        forall|id: u32| #[trigger] out@.contains(id) <==> (start.contains(id) || (
                            record_ids@.take(k as int).contains(id) && boxes_intersect(self.boxes@[id as int], *q))),
                    decreases record_ids.len() - k,
                {
                    let id = record_ids[k];
                    let i = id as usize;
                    let ghost before = out@;
                    let ghost pre = record_ids@.take(k as int);
                    assert(record_ids@.take(k + 1) == pre.push(id));
                    assert forall|x: u32| #[trigger] pre.push(id).contains(x) <==> (pre.contains(x) || x == id) by {
                        if pre.push(id).contains(x) {
                            let w = choose|w: int| 0 <= w < pre.push(id).len() && pre.push(id)[w] == x;
                            if w < pre.len() {
                                assert(pre[w] == x);
                            }
                        }
                        if pre.contains(x) {
                            let w = choose|w: int| 0 <= w < pre.len() && pre[w] == x;
                            assert(pre.push(id)[w] == x);
                        }
                        if x == id {
                            assert(pre.push(id)[pre.len() as int] == x);
                        }
                    }
                    if !visited[i] && self.boxes[i].intersects(q) {
                        visited.set(i, true);
                        out.push(id);
                        proof {
                            assert(!before.contains(id));
                            assert forall|x: u32| #[trigger] out@.contains(x) <==> (before.contains(x) || x == id) by {
                                if out@.contains(x) {
                                    let w = choose|w: int| 0 <= w < out@.len() && out@[w] == x;
                                    if w < before.len() {
                                        assert(before[w] == x);
                                    }
                                }
                                if before.contains(x) {
                                    let w = choose|w: int| 0 <= w < before.len() && before[w] == x;
                                    assert(out@[w] == x);
                                }
                                if x == id {
                                    assert(out@[before.len() as int] == x);
                                }
                            }
                            assert forall|a: int, b: int| 0 <= a < out@.len() && 0 <= b < out@.len() && a != b implies out@[a] != out@[b] by {
                                if a < before.len() && b < before.len() {
                                } else if a < before.len() {
                                    assert(before.contains(out@[a]));
                                } else if b < before.len() {
                                    assert(before.contains(out@[b]));
                                }
                            }
                        }
                    } else {
                        proof {
                            if boxes_intersect(self.boxes@[id as int], *q) {
                                assert(visited@[i as int]);
                                assert(out@.contains(i as u32));
                            }
                        }
                    }
                    k += 1;
                }
                proof {
                    assert(record_ids@.take(record_ids@.len() as int) == record_ids@);
                    assert forall|id: u32| #[trigger] out@.contains(id) <==> (start.contains(id) || found(
                        self.nodes@,
                        self.boxes@,
                        node as int,
                        *q,
                    ).contains(id)) by {
                        if record_ids@.contains(id) {
                            let w = choose|w: int| 0 <= w < record_ids@.len() && record_ids@[w] == id;
                            assert(id < self.boxes@.len());
                        }
                    }
                }
            },
            BspNode::Split { axis, cut, below, above } => {
                let (qmin, qmax) = match axis {
                    Axis::X => (q.minx, q.maxx),
                    Axis::Y => (q.miny, q.maxy),
                };
                let ghost start = out@;
                if qmin < *cut {
                    self.query_node(*below as usize, q, visited, out);
                }
                let ghost mid = out@;
                if qmax >= *cut {
                    self.query_node(*above as usize, q, visited, out);
                }
            },
        }
    }
}

} // verus!
