//! Building the bounding-volume hierarchy.
//!
//! Every subset of objects is split along the axis and strategy — median or
//! spatial midpoint, on each of the three axes — whose two sides' combined
//! box volume is smallest; both sides are provably nonempty and together
//! cover the subset, which is what the tree invariant needs.

use vstd::prelude::*;

use crate::aabb::{sa_bounded, sa_union, surrounding_box, Aabb, A3};
use crate::bvh::{
    node_ok, nodes_wf, subtree_objs, tree_wf, BboxTree, NodePointer, TreeNode,
};
use crate::object::{geo_box, geo_wf, GeometricObject};
use crate::vec3::{Dimm, PROD_LIMIT, VEC_LIMIT};

verus! {

/// Bound on every leaf box corner the builder accepts.
pub open spec fn leaf_limit() -> int {
    2 * PROD_LIMIT as int + crate::aabb::BOX_PAD as int
}

/// The flat array of leaf nodes the builder starts from: node `i` is the
/// leaf of object `i`, carrying that object's box.
pub open spec fn leaf_nodes_ok(nodes: Seq<TreeNode>, leaves: Seq<GeometricObject>) -> bool {
    &&& nodes.len() == leaves.len()
    &&& forall|i: int| 0 <= i < nodes.len() ==> (#[trigger] nodes[i]).ptr
        == NodePointer::Leaf(i as usize)
    &&& forall|i: int| 0 <= i < nodes.len() ==> (#[trigger] nodes[i]).bbox@ == geo_box(
        leaves[i])
    &&& forall|i: int| 0 <= i < nodes.len() ==> sa_bounded((#[trigger] nodes[i]).bbox@,
        leaf_limit())
}

/// A working subset of leaf indices.
pub struct BoxSet {
    pub inner: Vec<usize>,
}

impl BoxSet {
    /// How many leaves the subset holds.
    pub fn len(&self) -> (r: usize)
        ensures
            r == self.inner@.len(),
    {
        self.inner.len()
    }
}

/// All elements are valid leaf indices.
pub open spec fn set_in_range(s: Seq<usize>, n: int) -> bool {
    forall|j: int| 0 <= j < s.len() ==> (#[trigger] s[j]) < n
}

/// The sort key of a leaf on an axis, as the builder reads it.
pub open spec fn axis_key(nodes: Seq<TreeNode>, idx: int, axis: Dimm) -> int {
    crate::vec3::sv_axis(nodes[idx].bbox@.min, axis)
}

/// The sequence is ordered ascending by the leaves' axis keys.
pub open spec fn keys_sorted(nodes: Seq<TreeNode>, s: Seq<usize>, axis: Dimm) -> bool {
    forall|a: int, b: int| 0 <= a <= b < s.len() ==> axis_key(nodes, (#[trigger] s[a]) as int,
        axis) <= axis_key(nodes, (#[trigger] s[b]) as int, axis)
}

/// No index appears twice.
pub open spec fn no_dup(s: Seq<usize>) -> bool {
    forall|a: int, b: int| 0 <= a < b < s.len() ==> (#[trigger] s[a]) != (#[trigger] s[b])
}

/// The object index a leaf slot points at, if the slot is a leaf.
pub open spec fn leaf_obj(n: TreeNode) -> Option<int> {
    match n.ptr {
        NodePointer::Leaf(k) => Some(k as int),
        NodePointer::Branch { lhs, rhs } => None,
    }
}

/// Every leaf slot of the arena region points into the working set.
pub open spec fn region_leaves_in(arena: Seq<TreeNode>, from: int, to: int,
    ws: Seq<usize>) -> bool {
    forall|i: int| from <= i < to && leaf_obj(#[trigger] arena[i]) is Some ==> ws.contains(
        leaf_obj(arena[i])->0 as usize)
}

/// No two leaf slots of the arena region point at the same object.
pub open spec fn region_distinct(arena: Seq<TreeNode>, from: int, to: int) -> bool {
    forall|i: int, j: int| from <= i < j < to && leaf_obj(#[trigger] arena[i]) is Some
        && leaf_obj(#[trigger] arena[j]) is Some ==> leaf_obj(arena[i]) != leaf_obj(arena[j])
}

/// A returned subtree-root value is consistent against an arena it may be
/// appended to.
pub open spec fn rnode_ok(arena: Seq<TreeNode>, leaves: Seq<GeometricObject>,
    r: TreeNode) -> bool {
    &&& sa_bounded(r.bbox@, VEC_LIMIT as int)
    &&& match r.ptr {
        NodePointer::Leaf(k) => k < leaves.len() && r.bbox@ == geo_box(leaves[k as int]),
        NodePointer::Branch { lhs, rhs } => lhs < arena.len() && rhs < arena.len() && r.bbox@
            == sa_union(arena[lhs as int].bbox@, arena[rhs as int].bbox@),
    }
}

/// The objects a returned subtree-root value reaches.
pub open spec fn rsubtree(arena: Seq<TreeNode>, r: TreeNode) -> Set<int> {
    match r.ptr {
        NodePointer::Leaf(k) => set![k as int],
        NodePointer::Branch { lhs, rhs } => subtree_objs(arena, lhs as int).union(subtree_objs(
            arena, rhs as int)),
    }
}

/// A node's consistency only reads earlier arena slots, so it survives
/// appending more nodes.
pub proof fn lemma_node_ok_extend(small: Seq<TreeNode>, big: Seq<TreeNode>,
    leaves: Seq<GeometricObject>, i: int)
    requires
        small.len() <= big.len(),
        forall|j: int| 0 <= j < small.len() ==> small[j] == big[j],
        0 <= i < small.len(),
        node_ok(small, leaves, i),
    ensures
        node_ok(big, leaves, i),
{
}

/// A subtree's object set likewise survives appending more nodes.
pub proof fn lemma_subtree_extend(small: Seq<TreeNode>, big: Seq<TreeNode>, i: int)
    requires
        small.len() <= big.len(),
        forall|j: int| 0 <= j < small.len() ==> small[j] == big[j],
        0 <= i < small.len(),
    ensures
        subtree_objs(big, i) == subtree_objs(small, i),
    decreases i,
{
    match small[i].ptr {
        NodePointer::Leaf(k) => {
        },
        NodePointer::Branch { lhs, rhs } => {
            if lhs < i && rhs < i {
                lemma_subtree_extend(small, big, lhs as int);
                lemma_subtree_extend(small, big, rhs as int);
            }
        },
    }
}

/// Appending a consistent node makes its slot consistent, reaching exactly
/// what the value reached.
pub proof fn lemma_push_node(arena: Seq<TreeNode>, leaves: Seq<GeometricObject>, r: TreeNode)
    requires
        rnode_ok(arena, leaves, r),
    ensures
        node_ok(arena.push(r), leaves, arena.len() as int),
        subtree_objs(arena.push(r), arena.len() as int) == rsubtree(arena, r),
{
    let big = arena.push(r);
    let i = arena.len() as int;
    assert(big[i] == r);
    match r.ptr {
        NodePointer::Leaf(k) => {
        },
        NodePointer::Branch { lhs, rhs } => {
            lemma_subtree_extend(arena, big, lhs as int);
            lemma_subtree_extend(arena, big, rhs as int);
        },
    }
}

/// The sort key of a leaf on an axis: the box's minimum coordinate there.
fn leaf_key(nodes: &Vec<TreeNode>, idx: usize, axis: Dimm) -> (r: i64)
    requires
        idx < nodes@.len(),
    ensures
        r == crate::vec3::sv_axis(nodes@[idx as int].bbox@.min, axis),
{
    nodes[idx].bbox.min.0.get(axis)
}

/// Sorts a subset of leaf indices by their key on an axis (selection sort;
/// the contract guarantees the elements are preserved, which is what the
/// tree invariant needs — the ordering itself only steers split quality).
fn sort_by_axis(nodes: &Vec<TreeNode>, w: &Vec<usize>, axis: Dimm) -> (r: Vec<usize>)
    requires
        set_in_range(w@, nodes@.len() as int),
    ensures
        r@.len() == w@.len(),
        set_in_range(r@, nodes@.len() as int),
        forall|x: usize| r@.contains(x) <==> w@.contains(x),
        forall|a: int, b: int| 0 <= a <= b < r@.len() ==> crate::vec3::sv_axis(
            nodes@[(#[trigger] r@[a]) as int].bbox@.min, axis) <= crate::vec3::sv_axis(
            nodes@[(#[trigger] r@[b]) as int].bbox@.min, axis),
        keys_sorted(nodes@, r@, axis),
        no_dup(w@) ==> no_dup(r@),
{
    let mut v: Vec<usize> = Vec::new();
    let mut i: usize = 0;
    while i < w.len()
        invariant
            i <= w@.len(),
            v@ == w@.subrange(0, i as int),
            set_in_range(w@, nodes@.len() as int),
        decreases w@.len() - i,
    {
        v.push(w[i]);
        proof {
            assert(v@ =~= w@.subrange(0, i as int + 1));
        }
        i = i + 1;
    }
    proof {
        assert(v@ =~= w@);
    }
    let mut i: usize = 0;
    while i < v.len()
        invariant
            i <= v@.len(),
            v@.len() == w@.len(),
            set_in_range(v@, nodes@.len() as int),
            forall|x: usize| v@.contains(x) <==> w@.contains(x),
            no_dup(w@) ==> no_dup(v@),
            forall|a: int, b: int| 0 <= a <= b < i ==> crate::vec3::sv_axis(
                nodes@[(#[trigger] v@[a]) as int].bbox@.min, axis) <= crate::vec3::sv_axis(
                nodes@[(#[trigger] v@[b]) as int].bbox@.min, axis),
            forall|a: int, b: int| 0 <= a < i && i <= b < v@.len() ==> crate::vec3::sv_axis(
                nodes@[(#[trigger] v@[a]) as int].bbox@.min, axis) <= crate::vec3::sv_axis(
                nodes@[(#[trigger] v@[b]) as int].bbox@.min, axis),
        decreases v@.len() - i,
    {
        let mut m: usize = i;
        let mut j: usize = i + 1;
        while j < v.len()
            invariant
                i <= m < j <= v@.len(),
                v@.len() == w@.len(),
                set_in_range(v@, nodes@.len() as int),
                forall|a: int| i <= a < j ==> crate::vec3::sv_axis(
                    nodes@[(#[trigger] v@[m as int]) as int].bbox@.min, axis)
                    <= crate::vec3::sv_axis(nodes@[(#[trigger] v@[a]) as int].bbox@.min, axis),
            decreases v@.len() - j,
        {
            if leaf_key(&nodes, v[j], axis) < leaf_key(&nodes, v[m], axis) {
                m = j;
            }
            j = j + 1;
        }
        let ghost before = v@;
        let vi = v[i];
        let vm = v[m];
        v.set(i, vm);
        v.set(m, vi);
        proof {
            lemma_swap_elements(before, v@, i as int, m as int);
        }
        i = i + 1;
    }
    v
}

/// A swap of two positions keeps length, membership and untouched entries.
proof fn lemma_swap_elements(before: Seq<usize>, after: Seq<usize>, i: int, m: int)
    requires
        0 <= i <= m < before.len(),
        after == before.update(i, before[m]).update(m, before[i]),
    ensures
        after.len() == before.len(),
        forall|x: usize| after.contains(x) <==> before.contains(x),
        forall|a: int| 0 <= a < before.len() && a != i && a != m ==> after[a] == before[a],
        after[i] == before[m] && after[m] == before[i],
        no_dup(before) ==> no_dup(after),
{
    if no_dup(before) {
        assert forall|a: int, b: int| 0 <= a < b < after.len() implies after[a] != after[b]
            by {
            let pa: int = if a == i { m } else if a == m { i } else { a };
            let pb: int = if b == i { m } else if b == m { i } else { b };
            assert(after[a] == before[pa] && after[b] == before[pb]);
            assert(pa != pb);
        }
    }

    assert forall|x: usize| after.contains(x) implies before.contains(x) by {
        let j = choose|j: int| 0 <= j < after.len() && after[j] == x;
        if j == i {
            assert(before[m] == x);
        } else if j == m {
            assert(before[i] == x);
        } else {
            assert(before[j] == x);
        }
    }
    assert forall|x: usize| before.contains(x) implies after.contains(x) by {
        let j = choose|j: int| 0 <= j < before.len() && before[j] == x;
        if j == i {
            assert(after[m] == x);
        } else if j == m {
            assert(after[i] == x);
        } else {
            assert(after[j] == x);
        }
    }
}

/// What every split guarantees: two nonempty sides that together cover the
/// subset and together are no bigger than it.
pub open spec fn split_ok(w: Seq<usize>, lhs: Seq<usize>, rhs: Seq<usize>, n: int) -> bool {
    &&& lhs.len() >= 1 && rhs.len() >= 1
    &&& lhs.len() + rhs.len() == w.len()
    &&& set_in_range(lhs, n) && set_in_range(rhs, n)
    &&& forall|x: usize| w.contains(x) ==> lhs.contains(x) || rhs.contains(x)
    &&& forall|x: usize| lhs.contains(x) || rhs.contains(x) ==> w.contains(x)
}

/// The two sides of a split of a duplicate-free subset share nothing.
pub open spec fn split_exact(w: Seq<usize>, lhs: Seq<usize>, rhs: Seq<usize>) -> bool {
    no_dup(w) ==> no_dup(lhs) && no_dup(rhs) && (forall|x: usize| lhs.contains(x)
        ==> !rhs.contains(x))
}

/// Consecutive subranges of a duplicate-free sequence are duplicate-free
/// and disjoint.
proof fn lemma_split_nodup(s: Seq<usize>, cut: int)
    requires
        0 <= cut <= s.len(),
        no_dup(s),
    ensures
        no_dup(s.subrange(0, cut)),
        no_dup(s.subrange(cut, s.len() as int)),
        forall|x: usize| s.subrange(0, cut).contains(x) ==> !s.subrange(cut,
            s.len() as int).contains(x),
{
    assert forall|x: usize| s.subrange(0, cut).contains(x) implies !s.subrange(cut,
        s.len() as int).contains(x) by {
        let a = choose|a: int| 0 <= a < cut && s.subrange(0, cut)[a] == x;
        if s.subrange(cut, s.len() as int).contains(x) {
            let b = choose|b: int| 0 <= b < s.len() - cut && s.subrange(cut,
                s.len() as int)[b] == x;
            assert(s[a] == x && s[b + cut] == x);
        }
    }
}

/// Splits the subset at the median of the axis ordering: the lower half by
/// sorted rank, exactly `len / 2` members, goes left.
fn split_median(nodes: &Vec<TreeNode>, input: &BoxSet, axis: Dimm) -> (r: (BoxSet, BoxSet))
    requires
        set_in_range(input.inner@, nodes@.len() as int),
        input.inner@.len() >= 2,
    ensures
        split_ok(input.inner@, r.0.inner@, r.1.inner@, nodes@.len() as int),
        split_exact(input.inner@, r.0.inner@, r.1.inner@),
        r.0.inner@.len() == input.inner@.len() / 2,
        keys_sorted(nodes@, r.0.inner@ + r.1.inner@, axis),
{
    let sorted = sort_by_axis(nodes, &input.inner, axis);
    let half = sorted.len() / 2;
    let r = split_at(&sorted, half);
    proof {
        assert(r.0.inner@ + r.1.inner@ =~= sorted@);
        if no_dup(input.inner@) {
            lemma_split_nodup(sorted@, half as int);
        }
    }
    r
}

/// Splits the subset at the spatial midpoint of the occupied key range:
/// the first item in sorted order always goes left, every further item
/// goes left exactly while its key is below the midpoint (in sorted order
/// those form a prefix), and the maximal key always lands right, so both
/// sides are nonempty.
fn split_space(nodes: &Vec<TreeNode>, input: &BoxSet, axis: Dimm) -> (r: (BoxSet, BoxSet))
    requires
        set_in_range(input.inner@, nodes@.len() as int),
        input.inner@.len() >= 2,
    ensures
        split_ok(input.inner@, r.0.inner@, r.1.inner@, nodes@.len() as int),
        split_exact(input.inner@, r.0.inner@, r.1.inner@),
        keys_sorted(nodes@, r.0.inner@ + r.1.inner@, axis),
        ({
            let s = r.0.inner@ + r.1.inner@;
            let mid = crate::fixed::floor_div(axis_key(nodes@, s[0] as int, axis)
                + axis_key(nodes@, s[s.len() - 1] as int, axis), 2);
            &&& forall|j: int| 1 <= j < r.0.inner@.len() ==> axis_key(nodes@,
                (#[trigger] s[j]) as int, axis) < mid
            &&& forall|j: int| r.0.inner@.len() <= j < s.len() ==> axis_key(nodes@,
                (#[trigger] s[j]) as int, axis) >= mid
        }),
{
    let sorted = sort_by_axis(nodes, &input.inner, axis);
    let ghost nseq = nodes@;
    let k0 = leaf_key(nodes, sorted[0], axis);
    let kn = leaf_key(nodes, sorted[sorted.len() - 1], axis);
    proof {
        assert(axis_key(nseq, sorted@[0] as int, axis) <= axis_key(nseq,
            sorted@[sorted@.len() - 1] as int, axis));
        lemma_mid_between(k0 as int, kn as int);
    }
    let mid: i64 = crate::fixed::div_floor_i128((k0 as i128) + (kn as i128), 2) as i64;
    let mut cut: usize = 1;
    let mut stop = false;
    while cut < sorted.len() - 1 && !stop
        invariant
            1 <= cut <= sorted@.len() - 1,
            sorted@.len() >= 2,
            set_in_range(sorted@, nodes@.len() as int),
            nseq == nodes@,
            mid as int == crate::fixed::floor_div(axis_key(nseq, sorted@[0] as int, axis)
                + axis_key(nseq, sorted@[sorted@.len() - 1] as int, axis), 2),
            forall|j: int| 1 <= j < cut ==> axis_key(nseq, (#[trigger] sorted@[j]) as int,
                axis) < mid,
            stop ==> axis_key(nseq, sorted@[cut as int] as int, axis) >= mid,
        decreases sorted@.len() - cut + if stop { 0int } else { 1int },
    {
        if leaf_key(nodes, sorted[cut], axis) < mid {
            cut = cut + 1;
        } else {
            stop = true;
        }
    }
    proof {
        keys_sorted_trigger(nseq, sorted@, axis);
        if !stop {
            assert(cut == sorted@.len() - 1);
            assert(axis_key(nseq, sorted@[cut as int] as int, axis) >= mid);
        }
        assert forall|j: int| cut <= j < sorted@.len() implies axis_key(nseq,
            (#[trigger] sorted@[j]) as int, axis) >= mid by {
            assert(axis_key(nseq, sorted@[cut as int] as int, axis) <= axis_key(nseq,
                sorted@[j] as int, axis));
        }
    }
    let r = split_at(&sorted, cut);
    proof {
        assert(r.0.inner@ + r.1.inner@ =~= sorted@);
        if no_dup(input.inner@) {
            lemma_split_nodup(sorted@, cut as int);
        }
    }
    r
}

/// The floor of the average of two ordered scalars lies between them.
proof fn lemma_mid_between(a: int, b: int)
    requires
        a <= b,
    ensures
        a <= crate::fixed::floor_div(a + b, 2) <= b,
{
    vstd::arithmetic::div_mod::lemma_div_multiples_vanish(a, 2);
    vstd::arithmetic::div_mod::lemma_div_multiples_vanish(b, 2);
    vstd::arithmetic::div_mod::lemma_div_is_ordered(2 * a, a + b, 2);
    vstd::arithmetic::div_mod::lemma_div_is_ordered(a + b, 2 * b, 2);
}

/// Restates sortedness with its quantifier available on single elements.
proof fn keys_sorted_trigger(nodes: Seq<TreeNode>, s: Seq<usize>, axis: Dimm)
    requires
        keys_sorted(nodes, s, axis),
    ensures
        forall|a: int, b: int| 0 <= a <= b < s.len() ==> axis_key(nodes,
            (#[trigger] s[a]) as int, axis) <= axis_key(nodes, (#[trigger] s[b]) as int,
            axis),
{
}

/// Cuts an ordering into its first `cut` and remaining elements.
fn split_at(sorted: &Vec<usize>, cut: usize) -> (r: (BoxSet, BoxSet))
    requires
        1 <= cut < sorted@.len(),
    ensures
        r.0.inner@ == sorted@.subrange(0, cut as int),
        r.1.inner@ == sorted@.subrange(cut as int, sorted@.len() as int),
        r.0.inner@.len() + r.1.inner@.len() == sorted@.len(),
        r.0.inner@.len() >= 1 && r.1.inner@.len() >= 1,
        forall|x: usize| sorted@.contains(x) ==> r.0.inner@.contains(x)
            || r.1.inner@.contains(x),
        forall|x: usize| r.0.inner@.contains(x) || r.1.inner@.contains(x)
            ==> sorted@.contains(x),
    {
    let mut lhs: Vec<usize> = Vec::new();
    let mut rhs: Vec<usize> = Vec::new();
    let mut i: usize = 0;
    while i < cut
        invariant
            i <= cut,
            cut < sorted@.len(),
            lhs@ == sorted@.subrange(0, i as int),
        decreases cut - i,
    {
        lhs.push(sorted[i]);
        proof {
            assert(lhs@ =~= sorted@.subrange(0, i as int + 1));
        }
        i = i + 1;
    }
    while i < sorted.len()
        invariant
            cut <= i <= sorted@.len(),
            lhs@ == sorted@.subrange(0, cut as int),
            rhs@ == sorted@.subrange(cut as int, i as int),
        decreases sorted@.len() - i,
    {
        rhs.push(sorted[i]);
        proof {
            assert(rhs@ =~= sorted@.subrange(cut as int, i as int + 1));
        }
        i = i + 1;
    }
    proof {
        assert forall|x: usize| sorted@.contains(x) implies lhs@.contains(x)
            || rhs@.contains(x) by {
            let j = choose|j: int| 0 <= j < sorted@.len() && sorted@[j] == x;
            if j < cut {
                assert(lhs@[j] == x);
            } else {
                assert(rhs@[j - cut] == x);
            }
        }
        assert forall|x: usize| lhs@.contains(x) || rhs@.contains(x) implies
            sorted@.contains(x) by {
            if lhs@.contains(x) {
                let j = choose|j: int| 0 <= j < lhs@.len() && lhs@[j] == x;
                assert(sorted@[j] == x);
            } else {
                let j = choose|j: int| 0 <= j < rhs@.len() && rhs@[j] == x;
                assert(sorted@[j + cut] == x);
            }
        }
    }
    (BoxSet { inner: lhs }, BoxSet { inner: rhs })
}

/// The union of a subset's boxes, folded in order.
pub open spec fn subset_box(nodes: Seq<TreeNode>, s: Seq<usize>) -> Option<A3>
    decreases s.len(),
{
    if s.len() == 0 {
        None
    } else {
        let b = nodes[s.last() as int].bbox@;
        match subset_box(nodes, s.drop_last()) {
            None => Some(b),
            Some(p) => Some(sa_union(p, b)),
        }
    }
}

/// The volume proxy of a subset: its union box's edge product, zero when
/// the subset is empty.
pub open spec fn subset_area(nodes: Seq<TreeNode>, s: Seq<usize>) -> int {
    match subset_box(nodes, s) {
        None => 0,
        Some(b) => crate::aabb::sa_area(b),
    }
}

/// The quality score of a candidate split: the two sides' combined volume.
pub open spec fn split_score(nodes: Seq<TreeNode>, lhs: Seq<usize>, rhs: Seq<usize>) -> int {
    subset_area(nodes, lhs) + subset_area(nodes, rhs)
}

/// The union of bounded boxes stays bounded, so its volume is small enough
/// to add without overflow.
proof fn lemma_subset_box_bounded(nodes: Seq<TreeNode>, s: Seq<usize>, l: int)
    requires
        forall|i: int| 0 <= i < nodes.len() ==> sa_bounded((#[trigger] nodes[i]).bbox@, l),
        set_in_range(s, nodes.len() as int),
        0 <= l <= 0x1_0000_0000,
    ensures
        match subset_box(nodes, s) {
            None => true,
            Some(b) => sa_bounded(b, l),
        },
        -(0x8_0000_0000_0000_0000_0000_0000) <= subset_area(nodes, s)
            <= 0x8_0000_0000_0000_0000_0000_0000,
    decreases s.len(),
{
    if s.len() > 0 {
        lemma_subset_box_bounded(nodes, s.drop_last(), l);
    }
    match subset_box(nodes, s) {
        None => {
        },
        Some(b) => {
            crate::vec3::mul_bound(b.max.x - b.min.x, b.max.y - b.min.y, 0x2_0000_0000,
                0x2_0000_0000);
            crate::vec3::mul_bound((b.max.x - b.min.x) * (b.max.y - b.min.y), b.max.z
                - b.min.z, 0x4_0000_0000_0000_0000, 0x2_0000_0000);
        },
    }
}

/// The combined volume score of a candidate split.
fn total_area(nodes: &Vec<TreeNode>, lhs: &BoxSet, rhs: &BoxSet,
    Ghost(leaves): Ghost<Seq<GeometricObject>>) -> (r: i128)
    requires
        leaf_nodes_ok(nodes@, leaves),
        set_in_range(lhs.inner@, nodes@.len() as int),
        set_in_range(rhs.inner@, nodes@.len() as int),
    ensures
        r == split_score(nodes@, lhs.inner@, rhs.inner@),
{
    proof {
        lemma_subset_box_bounded(nodes@, lhs.inner@, leaf_limit());
        lemma_subset_box_bounded(nodes@, rhs.inner@, leaf_limit());
    }
    let la = set_area(nodes, lhs, Ghost(leaves));
    let ra = set_area(nodes, rhs, Ghost(leaves));
    la + ra
}

/// The volume of the union of a subset's boxes.
fn set_area(nodes: &Vec<TreeNode>, set: &BoxSet, Ghost(leaves): Ghost<Seq<GeometricObject>>)
    -> (r: i128)
    requires
        leaf_nodes_ok(nodes@, leaves),
        set_in_range(set.inner@, nodes@.len() as int),
    ensures
        r == subset_area(nodes@, set.inner@),
{
    let mut out: Option<Aabb> = None;
    let mut k: usize = 0;
    while k < set.inner.len()
        invariant
            k <= set.inner@.len(),
            leaf_nodes_ok(nodes@, leaves),
            set_in_range(set.inner@, nodes@.len() as int),
            out is Some ==> sa_bounded(out->Some_0@, leaf_limit()),
            match out {
                None => subset_box(nodes@, set.inner@.take(k as int)) is None,
                Some(b) => subset_box(nodes@, set.inner@.take(k as int)) == Some(b@),
            },
        decreases set.inner@.len() - k,
    {
        let b = &nodes[set.inner[k]].bbox;
        proof {
            assert(set.inner@.take(k as int + 1).drop_last() =~= set.inner@.take(k as int));
            assert(set.inner@.take(k as int + 1).last() == set.inner@[k as int]);
        }
        out = match out {
            Some(p) => Some(surrounding_box(&p, b)),
            None => Some(*b),
        };
        k = k + 1;
    }
    proof {
        assert(set.inner@.take(set.inner@.len() as int) =~= set.inner@);
        lemma_subset_box_bounded(nodes@, set.inner@, leaf_limit());
    }
    match out {
        Some(b) => b.area(),
        None => 0,
    }
}

/// Evaluates the six candidate splits — median and spatial midpoint on
/// each axis, in that enumeration order — and returns the one whose two
/// sides' combined box volume is smallest, ties to the earliest candidate.
/// The ghost result lists the candidates the choice was made over.
fn split_best(nodes: &Vec<TreeNode>, input: &BoxSet,
    Ghost(leaves): Ghost<Seq<GeometricObject>>)
    -> (r: (BoxSet, BoxSet, Ghost<Seq<(Seq<usize>, Seq<usize>)>>))
    requires
        leaf_nodes_ok(nodes@, leaves),
        set_in_range(input.inner@, nodes@.len() as int),
        input.inner@.len() >= 2,
    ensures
        split_ok(input.inner@, r.0.inner@, r.1.inner@, nodes@.len() as int),
        split_exact(input.inner@, r.0.inner@, r.1.inner@),
        r.2@.len() == 6,
        forall|i: int| 0 <= i < 6 ==> split_ok(input.inner@, (#[trigger] r.2@[i]).0,
            r.2@[i].1, nodes@.len() as int) && split_exact(input.inner@, r.2@[i].0,
            r.2@[i].1),
        exists|i: int| 0 <= i < 6 && (r.0.inner@, r.1.inner@) == (#[trigger] r.2@[i])
            && (forall|j: int| 0 <= j < 6 ==> split_score(nodes@, r.2@[i].0, r.2@[i].1)
            <= split_score(nodes@, (#[trigger] r.2@[j]).0, r.2@[j].1)) && (forall|j: int|
            0 <= j < i ==> split_score(nodes@, (#[trigger] r.2@[j]).0, r.2@[j].1)
            > split_score(nodes@, r.2@[i].0, r.2@[i].1)),
{
    let c0 = split_median(nodes, input, Dimm::X);
    let c1 = split_space(nodes, input, Dimm::X);
    let c2 = split_median(nodes, input, Dimm::Y);
    let c3 = split_space(nodes, input, Dimm::Y);
    let c4 = split_median(nodes, input, Dimm::Z);
    let c5 = split_space(nodes, input, Dimm::Z);
    let s0 = total_area(nodes, &c0.0, &c0.1, Ghost(leaves));
    let s1 = total_area(nodes, &c1.0, &c1.1, Ghost(leaves));
    let s2 = total_area(nodes, &c2.0, &c2.1, Ghost(leaves));
    let s3 = total_area(nodes, &c3.0, &c3.1, Ghost(leaves));
    let s4 = total_area(nodes, &c4.0, &c4.1, Ghost(leaves));
    let s5 = total_area(nodes, &c5.0, &c5.1, Ghost(leaves));
    let ghost cl: Seq<(Seq<usize>, Seq<usize>)> = seq![
        (c0.0.inner@, c0.1.inner@),
        (c1.0.inner@, c1.1.inner@),
        (c2.0.inner@, c2.1.inner@),
        (c3.0.inner@, c3.1.inner@),
        (c4.0.inner@, c4.1.inner@),
        (c5.0.inner@, c5.1.inner@),
    ];
    let mut bi: usize = 0;
    let mut bs = s0;
    if s1 < bs {
        bi = 1;
        bs = s1;
    }
    if s2 < bs {
        bi = 2;
        bs = s2;
    }
    if s3 < bs {
        bi = 3;
        bs = s3;
    }
    if s4 < bs {
        bi = 4;
        bs = s4;
    }
    if s5 < bs {
        bi = 5;
        bs = s5;
    }
    proof {
        assert(forall|j: int| 0 <= j < 6 ==> bs as int <= split_score(nodes@,
            (#[trigger] cl[j]).0, cl[j].1));
        assert(forall|j: int| 0 <= j < bi ==> split_score(nodes@, (#[trigger] cl[j]).0,
            cl[j].1) > bs as int);
        assert(bs as int == split_score(nodes@, cl[bi as int].0, cl[bi as int].1));
    }
    let chosen = if bi == 0 {
        c0
    } else if bi == 1 {
        c1
    } else if bi == 2 {
        c2
    } else if bi == 3 {
        c3
    } else if bi == 4 {
        c4
    } else {
        c5
    };
    proof {
        assert((chosen.0.inner@, chosen.1.inner@) == cl[bi as int]);
    }
    (chosen.0, chosen.1, Ghost(cl))
}

/// Recursively partitions a subset into a subtree, appending child nodes to
/// the shared arena; returns the subtree's root value, not yet appended.
fn partition_nodes(tree: &mut Vec<TreeNode>, nodes: &Vec<TreeNode>, working_set: &BoxSet,
    Ghost(leaves): Ghost<Seq<GeometricObject>>) -> (r: TreeNode)
    requires
        leaf_nodes_ok(nodes@, leaves),
        set_in_range(working_set.inner@, nodes@.len() as int),
        working_set.inner@.len() >= 1,
        no_dup(working_set.inner@),
        nodes_wf(old(tree)@, leaves),
    ensures
        old(tree)@.len() <= final(tree)@.len(),
        forall|j: int| 0 <= j < old(tree)@.len() ==> old(tree)@[j]
            == (#[trigger] final(tree)@[j]),
        nodes_wf(final(tree)@, leaves),
        rnode_ok(final(tree)@, leaves, r),
        forall|x: usize| working_set.inner@.contains(x) ==> rsubtree(final(tree)@, r).contains(
            x as int),
        forall|k: int| rsubtree(final(tree)@, r).contains(k) ==> working_set.inner@.contains(
            k as usize),
        working_set.inner@.len() == 1 ==> final(tree)@ == old(tree)@ && r == nodes@[
            working_set.inner@[0] as int],
        region_leaves_in(final(tree)@, old(tree)@.len() as int, final(tree)@.len() as int,
            working_set.inner@),
        region_distinct(final(tree)@, old(tree)@.len() as int, final(tree)@.len() as int),
        leaf_obj(r) is Some ==> final(tree)@ == old(tree)@ && working_set.inner@.contains(
            leaf_obj(r)->0 as usize),
    decreases working_set.inner@.len(),
{
    let ghost n = nodes@.len() as int;
    if working_set.inner.len() == 1 {
        let idx = working_set.inner[0];
        let r = nodes[idx];
        proof {
            assert(nodes@[idx as int].ptr == NodePointer::Leaf(idx));
            assert forall|x: usize| working_set.inner@.contains(x) implies rsubtree(tree@,
                r).contains(x as int) by {
                let j = choose|j: int| 0 <= j < working_set.inner@.len()
                    && working_set.inner@[j] == x;
                assert(j == 0);
            }
            assert(working_set.inner@.contains(working_set.inner@[0]));
        }
        r
    } else {
        let (lhs_set, rhs_set, Ghost(_cands)) = split_best(nodes, working_set,
            Ghost(leaves));
        let lhs = partition_nodes(tree, nodes, &lhs_set, Ghost(leaves));
        let ghost arena1 = tree@;
        let rhs = partition_nodes(tree, nodes, &rhs_set, Ghost(leaves));
        let ghost arena2 = tree@;
        let bbox = surrounding_box(&lhs.bbox, &rhs.bbox);
        let lhs_idx = tree.len();
        tree.push(lhs);
        let ghost arena3 = tree@;
        let rhs_idx = tree.len();
        tree.push(rhs);
        let ghost arena4 = tree@;
        let r = TreeNode { bbox, ptr: NodePointer::Branch { lhs: lhs_idx, rhs: rhs_idx } };
        proof {
            // The left child's value is still consistent against the larger
            // arena, and appending the two children keeps every slot
            // consistent.
            lemma_rnode_extend(arena1, arena2, leaves, lhs);
            lemma_push_node(arena2, leaves, lhs);
            assert(nodes_wf(arena3, leaves)) by {
                assert forall|i: int| 0 <= i < arena3.len() implies #[trigger] node_ok(arena3,
                    leaves, i) by {
                    if i < arena2.len() {
                        lemma_node_ok_extend(arena2, arena3, leaves, i);
                    }
                }
            }
            lemma_rnode_extend(arena2, arena3, leaves, rhs);
            lemma_push_node(arena3, leaves, rhs);
            assert(nodes_wf(arena4, leaves)) by {
                assert forall|i: int| 0 <= i < arena4.len() implies #[trigger] node_ok(arena4,
                    leaves, i) by {
                    if i < arena3.len() {
                        lemma_node_ok_extend(arena3, arena4, leaves, i);
                    }
                }
            }
            assert(rnode_ok(arena4, leaves, r)) by {
                assert(arena4[lhs_idx as int] == lhs);
                assert(arena4[rhs_idx as int] == rhs);
            }
            assert(subtree_objs(arena4, lhs_idx as int) == rsubtree(arena2, lhs)) by {
                lemma_push_subtree_eq(arena2, arena3, arena4, leaves, lhs);
            }
            assert(subtree_objs(arena4, rhs_idx as int) == rsubtree(arena3, rhs)) by {
                lemma_push_subtree_eq2(arena3, arena4, leaves, rhs);
            }
            lemma_rsubtree_extend(arena1, arena2, lhs);
            assert forall|x: usize| working_set.inner@.contains(x) implies rsubtree(arena4,
                r).contains(x as int) by {
                if lhs_set.inner@.contains(x) {
                    assert(rsubtree(arena1, lhs).contains(x as int));
                } else {
                    assert(rhs_set.inner@.contains(x));
                    assert(rsubtree(arena2, rhs).contains(x as int));
                    lemma_rsubtree_extend(arena2, arena3, rhs);
                }
            }
            assert forall|k: int| rsubtree(arena4, r).contains(k) implies
                working_set.inner@.contains(k as usize) by {
                lemma_rsubtree_extend(arena2, arena3, rhs);
                if rsubtree(arena2, lhs).contains(k) {
                    assert(rsubtree(arena1, lhs).contains(k));
                    assert(lhs_set.inner@.contains(k as usize));
                } else {
                    assert(rsubtree(arena3, rhs).contains(k));
                    assert(rsubtree(arena2, rhs).contains(k));
                    assert(rhs_set.inner@.contains(k as usize));
                }
            }
            // Which side each leaf slot of the appended region belongs to.
            let n0 = old(tree)@.len() as int;
            let n1 = arena1.len() as int;
            let n2 = arena2.len() as int;
            let ws = working_set.inner@;
            assert forall|i: int| n0 <= i < arena4.len() && leaf_obj(#[trigger] arena4[i])
                is Some implies ws.contains(leaf_obj(arena4[i])->0 as usize) by {
                lemma_region_side(arena1, arena2, arena4, lhs, rhs, lhs_set.inner@,
                    rhs_set.inner@, n0, i);
            }
            assert forall|i: int, j: int| n0 <= i < j < arena4.len() && leaf_obj(
                #[trigger] arena4[i]) is Some && leaf_obj(#[trigger] arena4[j]) is Some
                implies leaf_obj(arena4[i]) != leaf_obj(arena4[j]) by {
                lemma_region_side(arena1, arena2, arena4, lhs, rhs, lhs_set.inner@,
                    rhs_set.inner@, n0, i);
                lemma_region_side(arena1, arena2, arena4, lhs, rhs, lhs_set.inner@,
                    rhs_set.inner@, n0, j);
                if leaf_obj(arena4[i]) == leaf_obj(arena4[j]) {
                    let k = leaf_obj(arena4[i])->0;
                    if region_side_is_left(arena1, arena2, lhs, n0, i) {
                        assert(lhs_set.inner@.contains(k as usize));
                        if region_side_is_left(arena1, arena2, lhs, n0, j) {
                            // Two left-side leaves: both in the left region,
                            // or one is the left child value, whose own
                            // region is then empty.
                            if i < n1 && j < n1 {
                                assert(false);
                            } else {
                                assert(j == n2 && leaf_obj(lhs) is Some);
                                assert(n1 == n0);
                                assert(false);
                            }
                        } else {
                            assert(rhs_set.inner@.contains(k as usize));
                            assert(false);
                        }
                    } else {
                        assert(rhs_set.inner@.contains(k as usize));
                        if region_side_is_left(arena1, arena2, lhs, n0, j) {
                            assert(lhs_set.inner@.contains(k as usize));
                            assert(false);
                        } else {
                            if n1 <= i < n2 && n1 <= j < n2 {
                                assert(false);
                            } else {
                                assert(j == n2 + 1 && leaf_obj(rhs) is Some);
                                assert(n2 == n1);
                                assert(false);
                            }
                        }
                    }
                }
            }
        }
        r
    }
}

/// Whether a region slot belongs to the left child's side.
spec fn region_side_is_left(arena1: Seq<TreeNode>, arena2: Seq<TreeNode>, lhs: TreeNode,
    n0: int, i: int) -> bool {
    i < arena1.len() || i == arena2.len()
}

/// Every leaf slot of the combined region carries an object of its own
/// side's subset.
proof fn lemma_region_side(arena1: Seq<TreeNode>, arena2: Seq<TreeNode>,
    arena4: Seq<TreeNode>, lhs: TreeNode, rhs: TreeNode, lset: Seq<usize>,
    rset: Seq<usize>, n0: int, i: int)
    requires
        0 <= n0 <= arena1.len() <= arena2.len(),
        arena4 == arena2.push(lhs).push(rhs),
        forall|j: int| 0 <= j < arena1.len() ==> arena1[j] == (#[trigger] arena2[j]),
        region_leaves_in(arena1, n0, arena1.len() as int, lset),
        region_leaves_in(arena2, arena1.len() as int, arena2.len() as int, rset),
        leaf_obj(lhs) is Some ==> arena1.len() == n0 && lset.contains(
            leaf_obj(lhs)->0 as usize),
        leaf_obj(rhs) is Some ==> arena2.len() == arena1.len() && rset.contains(
            leaf_obj(rhs)->0 as usize),
        n0 <= i < arena4.len(),
        leaf_obj(arena4[i]) is Some,
    ensures
        region_side_is_left(arena1, arena2, lhs, n0, i) ==> lset.contains(
            leaf_obj(arena4[i])->0 as usize),
        !region_side_is_left(arena1, arena2, lhs, n0, i) ==> rset.contains(
            leaf_obj(arena4[i])->0 as usize),
        region_side_is_left(arena1, arena2, lhs, n0, i) && i >= arena1.len()
            ==> i == arena2.len() && leaf_obj(lhs) is Some && arena1.len() == n0,
        !region_side_is_left(arena1, arena2, lhs, n0, i) && i >= arena2.len()
            ==> i == arena2.len() + 1 && leaf_obj(rhs) is Some
            && arena2.len() == arena1.len(),
{
    if i < arena1.len() {
        assert(arena4[i] == arena2[i]);
        assert(arena4[i] == arena1[i]);
    } else if i < arena2.len() {
        assert(arena4[i] == arena2[i]);
    } else if i == arena2.len() {
        assert(arena4[i] == lhs);
    } else {
        assert(arena4[i] == rhs);
    }
}

/// A returned node's consistency is unchanged by extending the arena.
proof fn lemma_rnode_extend(small: Seq<TreeNode>, big: Seq<TreeNode>,
    leaves: Seq<GeometricObject>, r: TreeNode)
    requires
        small.len() <= big.len(),
        forall|j: int| 0 <= j < small.len() ==> small[j] == (#[trigger] big[j]),
        rnode_ok(small, leaves, r),
    ensures
        rnode_ok(big, leaves, r),
{
}

/// A returned node's reach is unchanged by extending the arena.
proof fn lemma_rsubtree_extend(small: Seq<TreeNode>, big: Seq<TreeNode>, r: TreeNode)
    requires
        small.len() <= big.len(),
        forall|j: int| 0 <= j < small.len() ==> small[j] == (#[trigger] big[j]),
        match r.ptr {
            NodePointer::Leaf(k) => true,
            NodePointer::Branch { lhs, rhs } => lhs < small.len() && rhs < small.len(),
        },
    ensures
        rsubtree(big, r) == rsubtree(small, r),
{
    match r.ptr {
        NodePointer::Leaf(k) => {
        },
        NodePointer::Branch { lhs, rhs } => {
            lemma_subtree_extend(small, big, lhs as int);
            lemma_subtree_extend(small, big, rhs as int);
        },
    }
}

/// Reach of a node pushed at `arena2.len()`, then extended once more.
proof fn lemma_push_subtree_eq(arena2: Seq<TreeNode>, arena3: Seq<TreeNode>,
    arena4: Seq<TreeNode>, leaves: Seq<GeometricObject>, l: TreeNode)
    requires
        rnode_ok(arena2, leaves, l),
        arena3 == arena2.push(l),
        arena4.len() >= arena3.len(),
        forall|j: int| 0 <= j < arena3.len() ==> arena3[j] == (#[trigger] arena4[j]),
    ensures
        subtree_objs(arena4, arena2.len() as int) == rsubtree(arena2, l),
{
    lemma_push_node(arena2, leaves, l);
    lemma_subtree_extend(arena3, arena4, arena2.len() as int);
}

/// Reach of a node pushed at the end of the arena.
proof fn lemma_push_subtree_eq2(arena3: Seq<TreeNode>, arena4: Seq<TreeNode>,
    leaves: Seq<GeometricObject>, r: TreeNode)
    requires
        rnode_ok(arena3, leaves, r),
        arena4 == arena3.push(r),
    ensures
        subtree_objs(arena4, arena3.len() as int) == rsubtree(arena3, r),
{
    lemma_push_node(arena3, leaves, r);
}

/// Builds the tree over a set of objects; the resulting tree is well formed
/// and owns exactly the given objects.
pub fn construct_tree(items: Vec<GeometricObject>) -> (t: BboxTree)
    requires
        forall|k: int| 0 <= k < items@.len() ==> geo_wf(#[trigger] items@[k]),
    ensures
        tree_wf(t),
        t.leaves@ == items@,
        items@.len() == 0 <==> t.root is None,
        items@.len() == 0 ==> t.tree@.len() == 0,
        t.root is Some ==> t.root->0 as int == t.tree@.len() - 1,
        forall|i: int, j: int| 0 <= i < j < t.tree@.len() && leaf_obj(#[trigger] t.tree@[i])
            is Some && leaf_obj(#[trigger] t.tree@[j]) is Some ==> leaf_obj(t.tree@[i])
            != leaf_obj(t.tree@[j]),
{
    if items.len() == 0 {
        return BboxTree { root: None, tree: Vec::new(), leaves: items };
    }
    let ghost leaves = items@;
    let mut leaf_nodes: Vec<TreeNode> = Vec::new();
    let mut idx: usize = 0;
    while idx < items.len()
        invariant
            idx <= items@.len(),
            leaves == items@,
            forall|k: int| 0 <= k < items@.len() ==> geo_wf(#[trigger] items@[k]),
            leaf_nodes@.len() == idx,
            forall|i: int| 0 <= i < idx ==> (#[trigger] leaf_nodes@[i]).ptr
                == NodePointer::Leaf(i as usize),
            forall|i: int| 0 <= i < idx ==> (#[trigger] leaf_nodes@[i]).bbox@ == geo_box(
                leaves[i]),
            forall|i: int| 0 <= i < idx ==> sa_bounded((#[trigger] leaf_nodes@[i]).bbox@,
                leaf_limit()),
        decreases items@.len() - idx,
    {
        let bb = items[idx].bounding_box();
        let bbox = match bb {
            Some(b) => b,
            None => {
                proof {
                    assert(false);
                }
                Aabb {
                    min: crate::vec3::Point(crate::vec3::Vec3::new(0, 0, 0)),
                    max: crate::vec3::Point(crate::vec3::Vec3::new(0, 0, 0)),
                }
            },
        };
        leaf_nodes.push(TreeNode { bbox, ptr: NodePointer::Leaf(idx) });
        idx = idx + 1;
    }
    let mut all: Vec<usize> = Vec::new();
    let mut i: usize = 0;
    while i < leaf_nodes.len()
        invariant
            i <= leaf_nodes@.len(),
            all@.len() == i,
            forall|j: int| 0 <= j < i ==> (#[trigger] all@[j]) == j as usize,
        decreases leaf_nodes@.len() - i,
    {
        all.push(i);
        i = i + 1;
    }
    let all_set = BoxSet { inner: all };
    proof {
        assert(no_dup(all_set.inner@));
    }
    let mut tree: Vec<TreeNode> = Vec::new();
    let root_node = partition_nodes(&mut tree, &leaf_nodes, &all_set, Ghost(leaves));
    let root = Some(tree.len());
    let ghost arena = tree@;
    tree.push(root_node);
    proof {
        lemma_push_node(arena, leaves, root_node);
        assert(nodes_wf(tree@, leaves)) by {
            assert forall|i: int| 0 <= i < tree@.len() implies #[trigger] node_ok(tree@,
                leaves, i) by {
                if i < arena.len() {
                    lemma_node_ok_extend(arena, tree@, leaves, i);
                }
            }
        }
        assert forall|k: int| 0 <= k < leaves.len() implies subtree_objs(tree@,
            arena.len() as int).contains(k) by {
            assert(all_set.inner@.contains(k as usize)) by {
                assert(all_set.inner@[k] == k as usize);
            }
            assert(rsubtree(arena, root_node).contains(k));
        }
        assert forall|i: int, j: int| 0 <= i < j < tree@.len() && leaf_obj(
            #[trigger] tree@[i]) is Some && leaf_obj(#[trigger] tree@[j]) is Some implies
            leaf_obj(tree@[i]) != leaf_obj(tree@[j]) by {
            if j < arena.len() {
                assert(tree@[i] == arena[i] && tree@[j] == arena[j]);
            } else {
                assert(tree@[j] == root_node);
                assert(leaf_obj(root_node) is Some);
                assert(arena.len() == 0);
            }
        }
    }
    BboxTree { root, tree, leaves: items }
}

impl BboxTree {
    /// Builds the hierarchy over the given objects.
    pub fn new(items: Vec<GeometricObject>) -> (t: BboxTree)
        requires
            forall|k: int| 0 <= k < items@.len() ==> geo_wf(#[trigger] items@[k]),
        ensures
            tree_wf(t),
            t.leaves@ == items@,
            items@.len() == 0 <==> t.root is None,
            items@.len() == 0 ==> t.tree@.len() == 0,
            t.root is Some ==> t.root->0 as int == t.tree@.len() - 1,
            forall|i: int, j: int| 0 <= i < j < t.tree@.len() && leaf_obj(
                #[trigger] t.tree@[i]) is Some && leaf_obj(#[trigger] t.tree@[j]) is Some
                ==> leaf_obj(t.tree@[i]) != leaf_obj(t.tree@[j]),
    {
        construct_tree(items)
    }
}

} // verus!
