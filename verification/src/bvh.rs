//! The bounding-volume hierarchy: an index-based arena of nodes over a flat
//! array of leaf objects, and the stack-based nearest-hit traversal.
//!
//! The traversal theorem: against a well-formed tree, the query returns a
//! hit exactly when an exhaustive scan of all leaf objects would, and at the
//! same parametric distance — pruning by bounding boxes loses nothing.

use vstd::prelude::*;

use crate::aabb::{
    lemma_inside_implies_slab, lemma_pos_strictly_inside, lemma_slab_monotone, sa_bounded,
    sa_contains, sa_union, slab_hit, Aabb, A3,
};
use crate::hit::{
    best_of, lemma_best_of_concat, lemma_best_of_props, lemma_best_of_window, merge_hits,
    opt_view, HitRecord, H3,
};
use crate::object::{geo_box, geo_cands, geo_wf, lemma_geo_cands_in_box, GeometricObject};
use crate::sphere::ray_wf;
use crate::vec3::{Ray, R3, PROD_LIMIT, VEC_LIMIT};

verus! {

/// A node points either at two child nodes or at one leaf object.
#[derive(Clone, Copy, Debug)]
pub enum NodePointer {
    Branch { lhs: usize, rhs: usize },
    Leaf(usize),
}

/// One arena slot: a bounding box and what it bounds.
#[derive(Clone, Copy, Debug)]
pub struct TreeNode {
    pub bbox: Aabb,
    pub ptr: NodePointer,
}

/// The tree: an arena in which children precede parents, a root slot, and
/// the owned leaf objects.
pub struct BboxTree {
    pub root: Option<usize>,
    pub tree: Vec<TreeNode>,
    pub leaves: Vec<GeometricObject>,
}

/// The reusable traversal stack, owned by the caller to avoid per-ray
/// allocation.
pub struct BboxTreeWorkspace {
    pub stack: Vec<usize>,
}

impl Default for BboxTreeWorkspace {
    /// An empty workspace.
    fn default() -> (r: Self)
        ensures
            r.stack@.len() == 0,
    {
        BboxTreeWorkspace { stack: Vec::new() }
    }
}

/// One node is internally consistent: a leaf holds a valid object index and
/// that object's box; a branch points backwards in the arena and holds the
/// union of its children's boxes.
pub open spec fn node_ok(nodes: Seq<TreeNode>, leaves: Seq<GeometricObject>, i: int) -> bool {
    &&& sa_bounded(nodes[i].bbox@, VEC_LIMIT as int)
    &&& match nodes[i].ptr {
        NodePointer::Leaf(k) => k < leaves.len() && nodes[i].bbox@ == geo_box(leaves[k as int]),
        NodePointer::Branch { lhs, rhs } => lhs < i && rhs < i && nodes[i].bbox@ == sa_union(
            nodes[lhs as int].bbox@, nodes[rhs as int].bbox@),
    }
}

pub open spec fn nodes_wf(nodes: Seq<TreeNode>, leaves: Seq<GeometricObject>) -> bool {
    forall|i: int| 0 <= i < nodes.len() ==> #[trigger] node_ok(nodes, leaves, i)
}

/// The set of object indices reachable below node `i`.
pub open spec fn subtree_objs(nodes: Seq<TreeNode>, i: int) -> Set<int>
    decreases i,
{
    if 0 <= i < nodes.len() {
        match nodes[i].ptr {
            NodePointer::Leaf(k) => set![k as int],
            NodePointer::Branch { lhs, rhs } => if lhs < i && rhs < i {
                subtree_objs(nodes, lhs as int).union(subtree_objs(nodes, rhs as int))
            } else {
                Set::empty()
            },
        }
    } else {
        Set::empty()
    }
}

/// The number of nodes below and including node `i`.
pub open spec fn subtree_size(nodes: Seq<TreeNode>, i: int) -> nat
    decreases i,
{
    if 0 <= i < nodes.len() {
        match nodes[i].ptr {
            NodePointer::Leaf(k) => 1,
            NodePointer::Branch { lhs, rhs } => if lhs < i && rhs < i {
                1 + subtree_size(nodes, lhs as int) + subtree_size(nodes, rhs as int)
            } else {
                1
            },
        }
    } else {
        0
    }
}

/// The total measure of a traversal stack.
pub open spec fn stack_measure(nodes: Seq<TreeNode>, stack: Seq<usize>) -> nat
    decreases stack.len(),
{
    if stack.len() == 0 {
        0
    } else {
        stack_measure(nodes, stack.drop_last()) + subtree_size(nodes, stack.last() as int)
    }
}

/// A whole tree is well formed: consistent nodes over well-formed objects,
/// and a root that reaches every object.
pub open spec fn tree_wf(t: BboxTree) -> bool {
    &&& nodes_wf(t.tree@, t.leaves@)
    &&& forall|k: int| 0 <= k < t.leaves@.len() ==> geo_wf(#[trigger] t.leaves@[k])
    &&& match t.root {
        Some(ri) => ri < t.tree@.len() && forall|k: int| 0 <= k < t.leaves@.len()
            ==> subtree_objs(t.tree@, ri as int).contains(k),
        None => t.leaves@.len() == 0,
    }
}

/// The candidate hits of the first `n` objects, in order.
pub open spec fn prefix_cands(leaves: Seq<GeometricObject>, r: R3, n: int) -> Seq<H3>
    decreases n,
{
    if n <= 0 {
        Seq::empty()
    } else {
        prefix_cands(leaves, r, n - 1) + geo_cands(leaves[n - 1], r)
    }
}

/// The candidate hits of every object of a list.
pub open spec fn all_cands(leaves: Seq<GeometricObject>, r: R3) -> Seq<H3> {
    prefix_cands(leaves, r, leaves.len() as int)
}

/// The full-window answer of one object.
pub open spec fn obj_best(leaves: Seq<GeometricObject>, r: R3, k: int, tmin: int,
    tmax: int) -> Option<H3> {
    best_of(geo_cands(leaves[k], r), tmin, tmax)
}

/// The combined answer is `None` exactly when every object's answer is, and
/// otherwise is some object's answer, of minimal distance.
pub proof fn lemma_prefix_props(leaves: Seq<GeometricObject>, r: R3, tmin: int, tmax: int,
    n: int)
    requires
        0 <= n <= leaves.len(),
    ensures
        best_of(prefix_cands(leaves, r, n), tmin, tmax) is None <==> forall|k: int| 0 <= k < n
            ==> obj_best(leaves, r, k, tmin, tmax) is None,
        match best_of(prefix_cands(leaves, r, n), tmin, tmax) {
            Some(b) => {
                &&& exists|k: int| 0 <= k < n && obj_best(leaves, r, k, tmin, tmax) == Some(b)
                &&& forall|k: int| 0 <= k < n && #[trigger] obj_best(leaves, r, k, tmin,
                    tmax) is Some ==> b.t <= obj_best(leaves, r, k, tmin, tmax)->0.t
            },
            None => true,
        },
    decreases n,
{
    if n > 0 {
        lemma_prefix_props(leaves, r, tmin, tmax, n - 1);
        lemma_best_of_concat(prefix_cands(leaves, r, n - 1), geo_cands(leaves[n - 1], r), tmin,
            tmax);
        let bprev = best_of(prefix_cands(leaves, r, n - 1), tmin, tmax);
        let bcur = obj_best(leaves, r, n - 1, tmin, tmax);
        let ball = best_of(prefix_cands(leaves, r, n), tmin, tmax);
        assert(prefix_cands(leaves, r, n) == prefix_cands(leaves, r, n - 1)
            + geo_cands(leaves[n - 1], r));
        assert(ball == merge_hits(bprev, bcur));
        if ball is None {
            assert(bprev is None && bcur is None);
            assert forall|k: int| 0 <= k < n implies obj_best(leaves, r, k, tmin, tmax)
                is None by {
                if k < n - 1 {
                } else {
                    assert(obj_best(leaves, r, k, tmin, tmax) == bcur);
                }
            }
        } else {
            let b = ball->0;
            if bprev is Some && (bcur is None || !(bcur->0.t < bprev->0.t)) {
                assert(ball == bprev);
                let kw = choose|k: int| 0 <= k < n - 1 && obj_best(leaves, r, k, tmin, tmax)
                    == Some(b);
                assert(0 <= kw < n && obj_best(leaves, r, kw, tmin, tmax) == Some(b));
            } else {
                assert(ball == bcur);
                assert(obj_best(leaves, r, n - 1, tmin, tmax) == Some(b));
            }
            assert forall|k: int| 0 <= k < n && #[trigger] obj_best(leaves, r, k, tmin, tmax)
                is Some implies b.t <= obj_best(leaves, r, k, tmin, tmax)->0.t by {
                if k == n - 1 {
                    assert(obj_best(leaves, r, k, tmin, tmax) == bcur);
                }
            }
        }
    }
}

/// Every object under a node sits inside that node's box.
pub proof fn lemma_subtree_box(nodes: Seq<TreeNode>, leaves: Seq<GeometricObject>, i: int)
    requires
        nodes_wf(nodes, leaves),
        0 <= i < nodes.len(),
    ensures
        forall|k: int| #[trigger] subtree_objs(nodes, i).contains(k) ==> 0 <= k < leaves.len()
            && sa_contains(nodes[i].bbox@, geo_box(leaves[k])),
    decreases i,
{
    assert(node_ok(nodes, leaves, i));
    match nodes[i].ptr {
        NodePointer::Leaf(k0) => {
            assert forall|k: int| #[trigger] subtree_objs(nodes, i).contains(k) implies 0 <= k
                < leaves.len() && sa_contains(nodes[i].bbox@, geo_box(leaves[k]))
                by {
                assert(k == k0 as int);
            }
        },
        NodePointer::Branch { lhs, rhs } => {
            lemma_subtree_box(nodes, leaves, lhs as int);
            lemma_subtree_box(nodes, leaves, rhs as int);
            crate::aabb::lemma_union_contains(nodes[lhs as int].bbox@, nodes[rhs as int].bbox@);
            assert(subtree_objs(nodes, i) == subtree_objs(nodes, lhs as int).union(
                subtree_objs(nodes, rhs as int)));
            assert forall|k: int| #[trigger] subtree_objs(nodes, i).contains(k) implies 0 <= k
                < leaves.len() && sa_contains(nodes[i].bbox@, geo_box(leaves[k])) by {
                assert(subtree_objs(nodes, lhs as int).contains(k) || subtree_objs(nodes,
                    rhs as int).contains(k));
                if subtree_objs(nodes, lhs as int).contains(k) {
                    crate::aabb::lemma_contains_trans(nodes[i].bbox@, nodes[lhs as int].bbox@,
                        geo_box(leaves[k]));
                } else {
                    crate::aabb::lemma_contains_trans(nodes[i].bbox@, nodes[rhs as int].bbox@,
                        geo_box(leaves[k]));
                }
            }
        },
    }
}

/// Appending to a stack adds its subtree to the measure.
proof fn lemma_measure_push(nodes: Seq<TreeNode>, stack: Seq<usize>, x: usize)
    ensures
        stack_measure(nodes, stack.push(x)) == stack_measure(nodes, stack) + subtree_size(nodes,
            x as int),
{
    assert(stack.push(x).drop_last() =~= stack);
    assert(stack.push(x).last() == x);
}


/// Membership of a hit among a shape's candidates.
pub open spec fn cand_member(s: Seq<H3>, h: H3) -> bool {
    exists|i: int| 0 <= i < s.len() && s[i] == h
}

/// Some stacked subtree still reaches object `k`.
pub open spec fn stack_covers(nodes: Seq<TreeNode>, stack: Seq<usize>, k: int) -> bool {
    exists|j: int| 0 <= j < stack.len() && subtree_objs(nodes, (#[trigger] stack[j]) as int)
        .contains(k)
}

/// The distance that currently bounds the search: the best hit so far, or
/// the far end of the window.
pub open spec fn cur_bound(closest: Option<(usize, HitRecord)>, tmax: int) -> int {
    match closest {
        Some((idx, rec)) => rec@.t,
        None => tmax,
    }
}

/// The distance of the running best hit (meaningful only when one exists).
pub open spec fn closest_t(closest: Option<(usize, HitRecord)>) -> int {
    match closest {
        Some(p) => p.1@.t,
        None => 0,
    }
}

/// The running best is a genuine candidate of its object, inside the window.
pub open spec fn best_ok(leaves: Seq<GeometricObject>, r: R3, tmin: int, tmax: int,
    closest: Option<(usize, HitRecord)>) -> bool {
    match closest {
        Some((idx, rec)) => idx < leaves.len() && cand_member(geo_cands(leaves[idx as int], r),
            rec@) && tmin <= rec@.t <= tmax,
        None => true,
    }
}

/// The traversal invariant: every object whose windowed answer exists is
/// either already no better than the running best, or still on the stack.
pub open spec fn pending_ok(nodes: Seq<TreeNode>, leaves: Seq<GeometricObject>, r: R3,
    tmin: int, tmax: int, stack: Seq<usize>, closest: Option<(usize, HitRecord)>) -> bool {
    forall|k: int| 0 <= k < leaves.len() && (#[trigger] obj_best(leaves, r, k, tmin, tmax))
        is Some ==> (closest is Some && closest_t(closest) <= obj_best(leaves, r, k, tmin,
        tmax)->0.t) || stack_covers(nodes, stack, k)
}

/// Popping a node whose box fails the slab test loses nothing: everything
/// under it is provably no better than the running best.
proof fn lemma_pop_pruned(nodes: Seq<TreeNode>, leaves: Seq<GeometricObject>, r: R3,
    tmin: int, tmax: int, prev: Seq<usize>, closest: Option<(usize, HitRecord)>)
    requires
        nodes_wf(nodes, leaves),
        forall|k: int| 0 <= k < leaves.len() ==> geo_wf(#[trigger] leaves[k]),
        prev.len() > 0,
        prev.last() < nodes.len(),
        tmin < tmax,
        best_ok(leaves, r, tmin, tmax, closest),
        pending_ok(nodes, leaves, r, tmin, tmax, prev, closest),
        !slab_hit(nodes[prev.last() as int].bbox@, r, tmin, cur_bound(closest, tmax)),
    ensures
        pending_ok(nodes, leaves, r, tmin, tmax, prev.drop_last(), closest),
{
    let ni = prev.last() as int;
    let tcl = cur_bound(closest, tmax);
    lemma_subtree_box(nodes, leaves, ni);
    assert forall|k: int| subtree_objs(nodes, ni).contains(k) && #[trigger] obj_best(leaves,
        r, k, tmin, tmax) is Some implies closest is Some && closest_t(closest)
        <= obj_best(leaves, r, k, tmin, tmax)->0.t by {
        let h = obj_best(leaves, r, k, tmin, tmax)->0;
        lemma_best_of_props(geo_cands(leaves[k], r), tmin, tmax);
        let beats = match closest {
            Some((idx, rec)) => h.t < rec@.t,
            None => true,
        };
        if beats {
            assert(tmin <= h.t <= tmax);
            assert(h.t <= tcl);
            assert(tmin < tcl);
            let ci = choose|i: int| 0 <= i < geo_cands(leaves[k], r).len() && geo_cands(
                leaves[k], r)[i] == h;
            lemma_geo_cands_in_box(leaves[k], r);
            lemma_pos_strictly_inside(geo_box(leaves[k]), r, h.t);
            lemma_inside_implies_slab(geo_box(leaves[k]), r, tmin, tcl, h.t);
            lemma_slab_monotone(geo_box(leaves[k]), nodes[ni].bbox@, r, tmin, tcl, tcl);
            assert(false);
        }
    }
    assert forall|k: int| 0 <= k < leaves.len() && (#[trigger] obj_best(leaves, r, k, tmin,
        tmax)) is Some implies (closest is Some && closest_t(closest) <= obj_best(leaves, r, k,
        tmin, tmax)->0.t) || stack_covers(nodes, prev.drop_last(), k) by {
        if stack_covers(nodes, prev, k) {
            let j = choose|j: int| 0 <= j < prev.len() && subtree_objs(nodes,
                (#[trigger] prev[j]) as int).contains(k);
            if j < prev.len() - 1 {
                assert(prev.drop_last()[j] == prev[j]);
                assert(stack_covers(nodes, prev.drop_last(), k));
            } else {
                assert(subtree_objs(nodes, ni).contains(k));
            }
        }
    }
}

/// Popping a branch and pushing its children keeps every object reachable.
proof fn lemma_pop_branch(nodes: Seq<TreeNode>, leaves: Seq<GeometricObject>, r: R3,
    tmin: int, tmax: int, prev: Seq<usize>, closest: Option<(usize, HitRecord)>, lhs: usize,
    rhs: usize)
    requires
        nodes_wf(nodes, leaves),
        prev.len() > 0,
        prev.last() < nodes.len(),
        nodes[prev.last() as int].ptr == (NodePointer::Branch { lhs, rhs }),
        pending_ok(nodes, leaves, r, tmin, tmax, prev, closest),
    ensures
        pending_ok(nodes, leaves, r, tmin, tmax, prev.drop_last().push(lhs).push(rhs),
            closest),
{
    let ni = prev.last() as int;
    assert(node_ok(nodes, leaves, ni));
    let st = prev.drop_last().push(lhs).push(rhs);
    assert forall|k: int| 0 <= k < leaves.len() && (#[trigger] obj_best(leaves, r, k, tmin,
        tmax)) is Some implies (closest is Some && closest_t(closest) <= obj_best(leaves, r, k,
        tmin, tmax)->0.t) || stack_covers(nodes, st, k) by {
        if stack_covers(nodes, prev, k) {
            let j = choose|j: int| 0 <= j < prev.len() && subtree_objs(nodes,
                (#[trigger] prev[j]) as int).contains(k);
            if j < prev.len() - 1 {
                assert(st[j] == prev[j]);
                assert(stack_covers(nodes, st, k));
            } else {
                assert(subtree_objs(nodes, ni).contains(k));
                if subtree_objs(nodes, lhs as int).contains(k) {
                    assert(st[st.len() - 2] == lhs);
                    assert(stack_covers(nodes, st, k));
                } else {
                    assert(subtree_objs(nodes, rhs as int).contains(k));
                    assert(st[st.len() - 1] == rhs);
                    assert(stack_covers(nodes, st, k));
                }
            }
        }
    }
}

/// Popping a leaf and testing its object keeps the invariant, whatever the
/// object answered within the tightened window.
proof fn lemma_pop_leaf(nodes: Seq<TreeNode>, leaves: Seq<GeometricObject>, r: R3, tmin: int,
    tmax: int, prev: Seq<usize>, old_closest: Option<(usize, HitRecord)>,
    new_closest: Option<(usize, HitRecord)>, k0: usize, sub: Option<HitRecord>)
    requires
        nodes_wf(nodes, leaves),
        prev.len() > 0,
        prev.last() < nodes.len(),
        nodes[prev.last() as int].ptr == NodePointer::Leaf(k0),
        k0 < leaves.len(),
        tmin < tmax,
        best_ok(leaves, r, tmin, tmax, old_closest),
        pending_ok(nodes, leaves, r, tmin, tmax, prev, old_closest),
        opt_view(sub) == best_of(geo_cands(leaves[k0 as int], r), tmin, cur_bound(old_closest,
            tmax)),
        new_closest == match sub {
            Some(h) => Some((k0, h)),
            None => old_closest,
        },
    ensures
        pending_ok(nodes, leaves, r, tmin, tmax, prev.drop_last(), new_closest),
        best_ok(leaves, r, tmin, tmax, new_closest),
{
    let ni = prev.last() as int;
    let tcl = cur_bound(old_closest, tmax);
    let cands = geo_cands(leaves[k0 as int], r);
    lemma_best_of_window(cands, tmin, tcl, tmax);
    lemma_best_of_props(cands, tmin, tcl);
    lemma_best_of_props(cands, tmin, tmax);
    assert(best_ok(leaves, r, tmin, tmax, new_closest)) by {
        if sub is Some {
            assert(best_of(cands, tmin, tcl) == Some(sub->0@));
            assert(tmin <= sub->0@.t <= tcl);
            assert(tcl <= tmax);
        }
    }
    assert forall|k: int| 0 <= k < leaves.len() && (#[trigger] obj_best(leaves, r, k, tmin,
        tmax)) is Some implies (new_closest is Some && closest_t(new_closest) <= obj_best(leaves,
        r, k, tmin, tmax)->0.t) || stack_covers(nodes, prev.drop_last(), k) by {
        let h = obj_best(leaves, r, k, tmin, tmax)->0;
        if stack_covers(nodes, prev, k) {
            let j = choose|j: int| 0 <= j < prev.len() && subtree_objs(nodes,
                (#[trigger] prev[j]) as int).contains(k);
            if j < prev.len() - 1 {
                assert(prev.drop_last()[j] == prev[j]);
                assert(stack_covers(nodes, prev.drop_last(), k));
            } else {
                assert(subtree_objs(nodes, ni).contains(k));
                assert(k == k0 as int);
                if h.t <= tcl {
                    assert(best_of(cands, tmin, tcl) == Some(h));
                    assert(sub is Some && sub->0@ == h);
                    assert(closest_t(new_closest) == h.t);
                } else {
                    match old_closest {
                        Some((oi, orec)) => {
                            assert(orec@.t == tcl);
                            match sub {
                                Some(nh) => {
                                    assert(nh@.t <= tcl);
                                    assert(closest_t(new_closest) <= h.t);
                                },
                                None => {
                                    assert(new_closest == old_closest);
                                },
                            }
                        },
                        None => {
                            assert(tcl == tmax);
                            assert(h.t <= tmax);
                            assert(false);
                        },
                    }
                }
            }
        } else {
            // The old best already matched k; the new best is no farther.
            assert(old_closest is Some && closest_t(old_closest) <= h.t);
            match sub {
                Some(nh) => {
                    assert(nh@.t <= tcl);
                    assert(tcl == closest_t(old_closest));
                },
                None => {
                    assert(new_closest == old_closest);
                },
            }
        }
    }
}

/// With an exhausted stack the running best is the global answer.
proof fn lemma_traversal_final(nodes: Seq<TreeNode>, leaves: Seq<GeometricObject>, r: R3,
    tmin: int, tmax: int, closest: Option<(usize, HitRecord)>)
    requires
        best_ok(leaves, r, tmin, tmax, closest),
        pending_ok(nodes, leaves, r, tmin, tmax, Seq::empty(), closest),
    ensures
        match closest {
            Some((idx, rec)) => match best_of(all_cands(leaves, r), tmin, tmax) {
                Some(b) => rec@.t == b.t,
                None => false,
            },
            None => best_of(all_cands(leaves, r), tmin, tmax) is None,
        },
{
    lemma_prefix_props(leaves, r, tmin, tmax, leaves.len() as int);
    match closest {
        Some((idx, rec)) => {
            lemma_best_of_props(geo_cands(leaves[idx as int], r), tmin, tmax);
            let hb = obj_best(leaves, r, idx as int, tmin, tmax);
            assert(hb is Some);
            assert(rec@.t <= hb->0.t);
            assert(hb->0.t <= rec@.t);
            let all = all_cands(leaves, r);
            assert(best_of(all, tmin, tmax) is Some);
            let b = best_of(all, tmin, tmax)->0;
            let kb = choose|k: int| 0 <= k < leaves.len() && obj_best(leaves, r, k, tmin,
                tmax) == Some(b);
            assert(rec@.t <= b.t);
            assert(b.t <= hb->0.t);
        },
        None => {
            assert forall|k: int| 0 <= k < leaves.len() implies obj_best(leaves, r, k, tmin,
                tmax) is None by {
                if obj_best(leaves, r, k, tmin, tmax) is Some {
                    assert(stack_covers(nodes, Seq::empty(), k));
                    assert(false);
                }
            }
        },
    }
}

impl BboxTree {
    /// The number of leaf objects.
    pub fn len(&self) -> (r: usize)
        ensures
            r == self.leaves@.len(),
    {
        self.leaves.len()
    }

    /// Whether the tree is empty.
    pub fn is_empty(&self) -> (r: bool)
        ensures
            r == (self.root is None),
    {
        self.root.is_none()
    }

    /// The leaf object at an index returned by a query.
    pub fn leaf(&self, idx: usize) -> (r: &GeometricObject)
        requires
            idx < self.leaves@.len(),
        ensures
            *r == self.leaves@[idx as int],
    {
        &self.leaves[idx]
    }

    /// The nearest hit among all leaf objects, found by pruning subtrees
    /// whose boxes the ray provably cannot meet closer than the best hit so
    /// far.  Returns the leaf's index and the hit.  The contract is the
    /// oracle of the whole tree: a hit is returned exactly when the
    /// exhaustive scan over every object would return one, at the same
    /// parametric distance, and always inside the queried window.
    ///
    /// A ray without direction meets nothing and a window without width
    /// admits nothing the strict slab comparison could keep, so both are
    /// rejected up front; the reference arithmetic reached the same answers
    /// only through incomparable not-a-number values.
    #[verifier::rlimit(100)]
    pub fn hit_workspace(&self, workspace: &mut BboxTreeWorkspace, ray: &Ray, t_min: i64,
        t_max: i64) -> (res: Option<(usize, HitRecord)>)
        requires
            tree_wf(*self),
            ray_wf(ray@),
            -(PROD_LIMIT as int) <= t_min <= PROD_LIMIT as int,
            -(PROD_LIMIT as int) <= t_max <= PROD_LIMIT as int,
            t_min < t_max,
        ensures
            match res {
                Some((idx, rec)) => {
                    &&& idx < self.leaves@.len()
                    &&& exists|i: int| 0 <= i < geo_cands(self.leaves@[idx as int],
                        ray@).len() && geo_cands(self.leaves@[idx as int], ray@)[i] == rec@
                    &&& t_min as int <= rec@.t <= t_max as int
                    &&& match best_of(all_cands(self.leaves@, ray@), t_min as int,
                        t_max as int) {
                        Some(b) => rec@.t == b.t,
                        None => false,
                    }
                },
                None => best_of(all_cands(self.leaves@, ray@), t_min as int, t_max as int)
                    is None,
            },
    {
        let ghost leaves = self.leaves@;
        let ghost nodes = self.tree@;
        let ghost rm = ray@;
        let ghost tmin = t_min as int;
        let ghost tmax = t_max as int;
        let root_idx = match self.root {
            Some(i) => i,
            None => {
                proof {
                    lemma_prefix_props(leaves, rm, tmin, tmax, 0);
                }
                return None;
            },
        };
        workspace.stack.truncate(0);
        workspace.stack.push(root_idx);
        let mut closest: Option<(usize, HitRecord)> = None;
        proof {
            assert(workspace.stack@ =~= Seq::empty().push(root_idx));
            lemma_measure_push(nodes, Seq::empty(), root_idx);
        }
        while workspace.stack.len() != 0
            invariant
                tree_wf(*self),
                ray_wf(rm),
                leaves == self.leaves@,
                nodes == self.tree@,
                rm == ray@,
                tmin == t_min as int,
                tmax == t_max as int,
                -(PROD_LIMIT as int) <= t_min <= PROD_LIMIT as int,
                -(PROD_LIMIT as int) <= t_max <= PROD_LIMIT as int,
                t_min < t_max,
                forall|j: int| 0 <= j < workspace.stack@.len()
                    ==> (#[trigger] workspace.stack@[j]) < nodes.len(),
                best_ok(leaves, rm, tmin, tmax, closest),
                pending_ok(nodes, leaves, rm, tmin, tmax, workspace.stack@, closest),
            decreases stack_measure(nodes, workspace.stack@),
        {
            let ghost prev_stack = workspace.stack@;
            let node_idx = workspace.stack.pop().unwrap();
            proof {
                assert(prev_stack.drop_last() == workspace.stack@);
                assert(prev_stack.last() == node_idx);
            }
            let t_closest: i64 = match &closest {
                Some((_, r)) => r.t,
                None => t_max,
            };
            proof {
                assert(t_closest as int == cur_bound(closest, tmax));
                assert(tmin <= t_closest as int <= tmax);
            }
            let node = &self.tree[node_idx];
            let ghost ni = node_idx as int;
            proof {
                assert(node_ok(nodes, leaves, ni));
            }
            if !node.bbox.hit2(ray, t_min, t_closest) {
                proof {
                    lemma_pop_pruned(nodes, leaves, rm, tmin, tmax, prev_stack, closest);
                }
                continue ;
            }
            match node.ptr {
                NodePointer::Branch { lhs, rhs } => {
                    workspace.stack.push(lhs);
                    proof {
                        lemma_measure_push(nodes, prev_stack.drop_last(), lhs);
                    }
                    workspace.stack.push(rhs);
                    proof {
                        lemma_measure_push(nodes, prev_stack.drop_last().push(lhs), rhs);
                        assert(subtree_size(nodes, ni) == 1 + subtree_size(nodes, lhs as int)
                            + subtree_size(nodes, rhs as int));
                        lemma_pop_branch(nodes, leaves, rm, tmin, tmax, prev_stack, closest,
                            lhs, rhs);
                    }
                },
                NodePointer::Leaf(k0) => {
                    let obj = &self.leaves[k0];
                    let sub = obj.hit(ray, t_min, t_closest);
                    let ghost old_closest = closest;
                    if let Some(hit) = sub {
                        closest = Some((k0, hit));
                    }
                    proof {
                        lemma_pop_leaf(nodes, leaves, rm, tmin, tmax, prev_stack, old_closest,
                            closest, k0, sub);
                    }
                },
            }
        }
        proof {
            assert(workspace.stack@ =~= Seq::<usize>::empty());
            lemma_traversal_final(nodes, leaves, rm, tmin, tmax, closest);
        }
        closest
    }
}

} // verus!
