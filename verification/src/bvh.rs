//! The bounding-volume hierarchy.
//!
//! Construction bins objects by centroid along the widest axis and splits
//! at the boundary of least surface-area-heuristic cost, falling back to a
//! positional median split when the centroids degenerate. The query
//! descends only into nodes whose box the ray's slab test reports hit.
//!
//! The theorem `lemma_bvh_equals_scan` states that this pruning is
//! invisible: the query's answer equals the minimum-distance result of a
//! brute-force scan over every object in the tree (`scan_best`), because
//! an internal node's box encloses the boxes of all objects beneath it and
//! the slab test never misses a box that the ray truly reaches.

use vstd::prelude::*;

use vstd::seq_lib::lemma_multiset_commutative;
use vstd::seq_lib::group_to_multiset_ensures;

use crate::bounds::{BoundingBox, box_wf, box_area, slab_spec, empty_box, union_spec, in_box_at,
    lemma_witness_implies_slab, lemma_witness_grows};
use crate::fixed::tdiv;
use crate::material::Material;
use crate::object::{Object, Collision, object_wf, object_box, collide_spec};
use crate::ray::{Ray, ray_wf};
use crate::surface::{Intersection, lemma_surface_hit_witness, lemma_surface_box_wf, surface_hit,
    surface_box};
use crate::types::{Axis, axis_of};

verus! {

/// An interior node holds its box and two children; a leaf holds one
/// object.
#[derive(Debug)]
pub enum BvhNode {
    Node(BoundingBox, Box<BvhNode>, Box<BvhNode>),
    Leaf(Object),
}

#[derive(Debug)]
pub struct BoundingVolumeHierarchy {
    pub root: Box<BvhNode>,
}

/// The number of centroid bins the builder partitions into.
pub const NUM_BINS: usize = 8;

/// All objects at the leaves, left to right.
pub open spec fn node_objs(n: BvhNode) -> Seq<Object>
    decreases n,
{
    match n {
        BvhNode::Leaf(o) => seq![o],
        BvhNode::Node(_, l, r) => node_objs(*l) + node_objs(*r),
    }
}

/// `inner` lies within `outer`, componentwise.
pub open spec fn box_inside(inner: BoundingBox, outer: BoundingBox) -> bool {
    &&& outer.min.x <= inner.min.x
    &&& outer.min.y <= inner.min.y
    &&& outer.min.z <= inner.min.z
    &&& inner.max.x <= outer.max.x
    &&& inner.max.y <= outer.max.y
    &&& inner.max.z <= outer.max.z
}

/// Every object below `n` has its bounding box inside `outer`.
pub open spec fn node_covered(n: BvhNode, outer: BoundingBox) -> bool {
    forall|i: int|
        0 <= i < node_objs(n).len() ==> box_inside(object_box(#[trigger] node_objs(n)[i]), outer)
}

/// The box a node stands under: a leaf's is its object's bounding box, an
/// interior node's is the one it stores.
pub open spec fn node_box(n: BvhNode) -> BoundingBox {
    match n {
        BvhNode::Leaf(o) => object_box(o),
        BvhNode::Node(bb, _, _) => bb,
    }
}

/// Structural soundness of the tree: every object is well-formed, and an
/// interior node's box is exactly the union of its two children's boxes —
/// hence, inductively, it encloses every object's box beneath it.
pub open spec fn node_wf(n: BvhNode) -> bool
    decreases n,
{
    match n {
        BvhNode::Leaf(o) => object_wf(o),
        BvhNode::Node(bb, l, r) => {
            &&& box_wf(bb)
            &&& node_wf(*l)
            &&& node_wf(*r)
            &&& bb == union_spec(node_box(*l), node_box(*r))
        },
    }
}

/// A well-formed node's own box covers every object beneath it.
pub proof fn lemma_node_covers_self(n: BvhNode)
    requires
        node_wf(n),
    ensures
        node_covered(n, node_box(n)),
    decreases n,
{
    match n {
        BvhNode::Leaf(o) => {
            assert(node_objs(n) =~= seq![o]);
        },
        BvhNode::Node(bb, l, r) => {
            lemma_node_covers_self(*l);
            lemma_node_covers_self(*r);
            assert forall|i: int| 0 <= i < node_objs(n).len() implies box_inside(object_box(
                #[trigger] node_objs(n)[i]), bb) by {
                if i < node_objs(*l).len() {
                    assert(node_objs(n)[i] == node_objs(*l)[i]);
                    assert(box_inside(object_box(node_objs(*l)[i]), node_box(*l)));
                } else {
                    assert(node_objs(n)[i] == node_objs(*r)[i - node_objs(*l).len()]);
                    assert(box_inside(object_box(node_objs(*r)[i - node_objs(*l).len()]),
                        node_box(*r)));
                }
            }
        },
    }
}

/// Pick the nearer of two optional hits; a tie goes to the right, as the
/// query's combination step does.
pub open spec fn best2(x: Option<(Intersection, Material)>, y: Option<(Intersection, Material)>)
    -> Option<(Intersection, Material)> {
    match (x, y) {
        (Some(a), Some(b)) => if a.0.distance < b.0.distance {
            x
        } else {
            y
        },
        (Some(_), None) => x,
        (None, _) => y,
    }
}

/// What the tree query returns, mirrored: a missed node box prunes the
/// whole subtree.
pub open spec fn node_best(n: BvhNode, r: Ray) -> Option<(Intersection, Material)>
    decreases n,
{
    match n {
        BvhNode::Leaf(o) => collide_spec(o, r),
        BvhNode::Node(bb, l, rt) => if slab_spec(bb, r) {
            best2(node_best(*l, r), node_best(*rt, r))
        } else {
            None
        },
    }
}

/// The brute-force reference: fold every object's own ray test.
pub open spec fn scan_best(objs: Seq<Object>, r: Ray) -> Option<(Intersection, Material)>
    decreases objs.len(),
{
    if objs.len() == 0 {
        None
    } else {
        best2(collide_spec(objs[0], r), scan_best(objs.drop_first(), r))
    }
}

/// `best2` is associative: any bracketing of the same hits picks the same
/// winner.
pub proof fn lemma_best2_assoc(x: Option<(Intersection, Material)>, y: Option<(Intersection,
    Material)>, z: Option<(Intersection, Material)>)
    ensures
        best2(best2(x, y), z) == best2(x, best2(y, z)),
{
}

/// Scanning a concatenation is combining the two scans.
pub proof fn lemma_scan_concat(a: Seq<Object>, b: Seq<Object>, r: Ray)
    ensures
        scan_best(a + b, r) == best2(scan_best(a, r), scan_best(b, r)),
    decreases a.len(),
{
    if a.len() == 0 {
        assert(a + b =~= b);
    } else {
        assert((a + b).drop_first() =~= a.drop_first() + b);
        assert((a + b)[0] == a[0]);
        lemma_scan_concat(a.drop_first(), b, r);
        lemma_best2_assoc(collide_spec(a[0], r), scan_best(a.drop_first(), r), scan_best(b, r));
    }
}

/// If every object misses, the scan reports a miss.
pub proof fn lemma_scan_none(objs: Seq<Object>, r: Ray)
    requires
        forall|i: int| 0 <= i < objs.len() ==> collide_spec(#[trigger] objs[i], r) is None,
    ensures
        scan_best(objs, r) is None,
    decreases objs.len(),
{
    if objs.len() > 0 {
        assert(forall|i: int|
            0 <= i < objs.drop_first().len() ==> collide_spec(
                #[trigger] objs.drop_first()[i], r) is None);
        lemma_scan_none(objs.drop_first(), r);
    }
}

/// A missed primitive is exactly a `None` verdict.
proof fn lemma_miss_iff(o: Object, r: Ray)
    ensures
        collide_spec(o, r) is None <==> !surface_hit(o.surface, r),
{
    match o.surface {
        crate::surface::Surface::Ball(_) => {
        },
        crate::surface::Surface::Tri(_) => {
        },
    }
}

/// The hierarchy's answer equals the brute-force scan over every object in
/// the tree, for every ray: descending only into boxes the slab test
/// reports hit discards no hit, and the combination step picks the
/// minimum-distance result.
pub proof fn lemma_bvh_equals_scan(n: BvhNode, r: Ray)
    requires
        node_wf(n),
        ray_wf(r),
    ensures
        node_best(n, r) == scan_best(node_objs(n), r),
    decreases n,
{
    match n {
        BvhNode::Leaf(o) => {
            assert(node_objs(n) =~= seq![o]);
            assert(scan_best(Seq::<Object>::empty(), r) is None);
            assert(node_objs(n).drop_first() =~= Seq::<Object>::empty());
            assert(node_objs(n)[0] == o);
        },
        BvhNode::Node(bb, l, rt) => {
            lemma_bvh_equals_scan(*l, r);
            lemma_bvh_equals_scan(*rt, r);
            if slab_spec(bb, r) {
                lemma_scan_concat(node_objs(*l), node_objs(*rt), r);
            } else {
                let objs = node_objs(n);
                lemma_node_covers_self(*l);
                lemma_node_covers_self(*rt);
                assert forall|i: int| 0 <= i < objs.len() implies collide_spec(
                    #[trigger] objs[i], r) is None by {
                    let o = objs[i];
                    assert(box_inside(object_box(o), bb)) by {
                        if i < node_objs(*l).len() {
                            assert(o == node_objs(*l)[i]);
                            assert(box_inside(object_box(o), node_box(*l)));
                        } else {
                            assert(o == node_objs(*rt)[i - node_objs(*l).len()]);
                            assert(box_inside(object_box(o), node_box(*rt)));
                        }
                    }
                    lemma_miss_iff(o, r);
                    if surface_hit(o.surface, r) {
                        assert(object_wf(o)) by {
                            if i < node_objs(*l).len() {
                                lemma_objs_wf(*l, i);
                            } else {
                                lemma_objs_wf(*rt, i - node_objs(*l).len());
                            }
                        }
                        lemma_surface_hit_witness(o.surface, r);
                        let (tn, td) = choose|tn: int, td: int|
                            td > 0 && tn > 0 && #[trigger] in_box_at(surface_box(o.surface), r,
                                tn, td);
                        lemma_witness_grows(surface_box(o.surface), bb, r, tn, td);
                        lemma_witness_implies_slab(bb, r, tn, td);
                    }
                }
                lemma_scan_none(objs, r);
            }
        },
    }
}

/// Every object at a leaf of a well-formed tree is well-formed.
pub proof fn lemma_objs_wf(n: BvhNode, i: int)
    requires
        node_wf(n),
        0 <= i < node_objs(n).len(),
    ensures
        object_wf(node_objs(n)[i]),
    decreases n,
{
    match n {
        BvhNode::Leaf(_) => {
        },
        BvhNode::Node(_, l, rt) => {
            if i < node_objs(*l).len() {
                lemma_objs_wf(*l, i);
            } else {
                lemma_objs_wf(*rt, i - node_objs(*l).len());
            }
        },
    }
}

/// Every bin's box is well-formed and its count small.
pub open spec fn bins_wf(bins: Seq<Bin>) -> bool {
    forall|i: int|
        0 <= i < bins.len() ==> box_wf(#[trigger] bins[i].bb) && bins[i].count <= 0x1000_0000
}

/// One centroid bin: the box of the objects assigned to it and their
/// count.
#[derive(Clone, Debug)]
pub struct Bin {
    pub bb: BoundingBox,
    pub count: u64,
}

impl Bin {
    /// An empty bin.
    pub fn empty() -> (r: Bin)
        ensures
            r.bb == empty_box(),
            r.count == 0,
    {
        Bin { bb: BoundingBox::empty(), count: 0 }
    }
}

/// The centroid of an object's bounding box, along one axis.
pub open spec fn centroid_axis(o: Object, a: Axis) -> int {
    tdiv(axis_of(object_box(o).min, a) + axis_of(object_box(o).max, a), 2)
}

/// The axis of greatest extent of a box.
pub open spec fn widest_axis_spec(b: BoundingBox) -> Axis {
    let ex = b.max.x - b.min.x;
    let ey = b.max.y - b.min.y;
    let ez = b.max.z - b.min.z;
    if ex > ey && ex > ez {
        Axis::X
    } else if ey > ez {
        Axis::Y
    } else {
        Axis::Z
    }
}

/// The axis along which the box is widest.
fn widest_axis(b: &BoundingBox) -> (r: Axis)
    requires
        box_wf(*b),
    ensures
        r == widest_axis_spec(*b),
{
    let ex = b.max.x - b.min.x;
    let ey = b.max.y - b.min.y;
    let ez = b.max.z - b.min.z;
    if ex > ey && ex > ez {
        Axis::X
    } else if ey > ez {
        Axis::Y
    } else {
        Axis::Z
    }
}

/// The surface-area-heuristic cost of splitting before bin `p`: each
/// side's box area weighted by its object count.
pub open spec fn sah_cost(bins: Seq<Bin>, p: int) -> int {
    box_area(range_box(bins, 0, p)) * range_count(bins, 0, p) + box_area(range_box(bins, p,
        NUM_BINS as int)) * range_count(bins, p, NUM_BINS as int)
}

/// The cost of one boundary, exactly.
fn split_cost(bins: &Vec<Bin>, p: usize) -> (c: i128)
    requires
        bins@.len() == NUM_BINS,
        bins_wf(bins@),
        1 <= p < NUM_BINS,
    ensures
        c == sah_cost(bins@, p as int),
{
    let left = combine_bins(bins, 0, p);
    let right = combine_bins(bins, p, NUM_BINS);
    let la = left.bb.surface_area();
    let ra = right.bb.surface_area();
    proof {
        crate::types::lemma_prod_bound2(la as int, left.count as int, 0x2000_0000_0000_0000,
            0x1_0000_0000);
        crate::types::lemma_prod_bound2(ra as int, right.count as int, 0x2000_0000_0000_0000,
            0x1_0000_0000);
    }
    la * left.count as i128 + ra * right.count as i128
}

/// The surface-area-heuristic split index: the interior boundary of least
/// cost (the leftmost one on a tie).
fn best_partition(bins: &Vec<Bin>) -> (r: usize)
    requires
        bins@.len() == NUM_BINS,
        bins_wf(bins@),
    ensures
        1 <= r < NUM_BINS,
        forall|p: int| 1 <= p < NUM_BINS ==> sah_cost(bins@, r as int) <= #[trigger] sah_cost(
            bins@, p),
{
    let mut best: usize = 1;
    let mut best_cost: i128 = split_cost(bins, 1);
    let mut p: usize = 2;
    while p < NUM_BINS
        invariant
            2 <= p <= NUM_BINS,
            1 <= best < p,
            bins@.len() == NUM_BINS,
            bins_wf(bins@),
            best_cost == sah_cost(bins@, best as int),
            forall|q: int| 1 <= q < p ==> sah_cost(bins@, best as int) <= #[trigger] sah_cost(
                bins@, q),
        decreases NUM_BINS - p,
    {
        let c = split_cost(bins, p);
        if c < best_cost {
            best = p;
            best_cost = c;
        }
        p = p + 1;
    }
    best
}

/// All objects of the sequence are well-formed.
pub open spec fn objs_wf_seq(s: Seq<Object>) -> bool {
    forall|i: int| 0 <= i < s.len() ==> object_wf(#[trigger] s[i])
}

/// The bin an object's centroid falls into along the chosen axis.
pub open spec fn bin_of(o: Object, a: Axis, lo: int, extent: int) -> int {
    let q = (centroid_axis(o, a) - lo) * 8 / extent;
    if q > 7 {
        7
    } else {
        q
    }
}

/// Split the objects into two non-empty parts: by centroid bin along the
/// widest axis, at the boundary of least surface-area-heuristic cost; by
/// position when the centroids' spread degenerates. Both parts together
/// hold exactly the input objects.
fn partition(objects: Vec<Object>) -> (r: (Vec<Object>, Vec<Object>))
    requires
        2 <= objects@.len() <= 0x1000_0000,
        objs_wf_seq(objects@),
    ensures
        1 <= r.0@.len(),
        1 <= r.1@.len(),
        r.0@.len() + r.1@.len() == objects@.len(),
        r.0@.to_multiset().add(r.1@.to_multiset()) == objects@.to_multiset(),
        objs_wf_seq(r.0@),
        objs_wf_seq(r.1@),
{
    let ghost orig = objects@;
    let mut objects = objects;
    // Bound every object's centroid.
    let mut cb = BoundingBox::empty();
    let mut i: usize = 0;
    while i < objects.len()
        invariant
            objects@ == orig,
            2 <= orig.len() <= 0x1000_0000,
            objs_wf_seq(orig),
            0 <= i <= orig.len(),
            box_wf(cb),
            i >= 1 ==> cb.min.x <= cb.max.x && cb.min.y <= cb.max.y && cb.min.z <= cb.max.z,
            forall|j: int|
                0 <= j < i ==> cb.min.x <= centroid_axis(#[trigger] orig[j], Axis::X)
                    <= cb.max.x && cb.min.y <= centroid_axis(orig[j], Axis::Y) <= cb.max.y
                    && cb.min.z <= centroid_axis(orig[j], Axis::Z) <= cb.max.z,
        decreases orig.len() - i,
    {
        proof {
            lemma_surface_box_wf(objects@[i as int].surface);
        }
        let b = objects[i].surface.bounding_box();
        let c = b.centroid();
        cb.add_point(c);
        i = i + 1;
    }
    let axis = widest_axis(&cb);
    let lo = cb.min.axis(axis);
    let hi = cb.max.axis(axis);
    proof {
        match axis {
            Axis::X => {
            },
            Axis::Y => {
            },
            Axis::Z => {
            },
        }
    }
    let extent = hi - lo;
    if extent < NUM_BINS as i64 {
        // Degenerate spread: positional median split.
        let at = objects.len() / 2;
        let right = objects.split_off(at);
        proof {
            assert(orig =~= orig.subrange(0, at as int) + orig.subrange(at as int,
                orig.len() as int));
            lemma_multiset_commutative(orig.subrange(0, at as int), orig.subrange(at as int,
                orig.len() as int));
            assert(objs_wf_seq(objects@)) by {
                assert(forall|j: int|
                    0 <= j < objects@.len() ==> #[trigger] objects@[j] == orig[j]);
            }
            assert(objs_wf_seq(right@)) by {
                assert(forall|j: int|
                    0 <= j < right@.len() ==> #[trigger] right@[j] == orig[j + at]);
            }
        }
        (objects, right)
    } else {
        // Assign each object to a bin by centroid position.
        let mut assignments: Vec<usize> = Vec::new();
        i = 0;
        while i < objects.len()
            invariant
                objects@ == orig,
                2 <= orig.len() <= 0x1000_0000,
                objs_wf_seq(orig),
                0 <= i <= orig.len(),
                extent >= 8,
                extent == hi - lo,
                -0x2000_0000 <= lo <= 0x2000_0000,
                assignments@.len() == i,
                forall|j: int|
                    0 <= j < i ==> #[trigger] assignments@[j] == bin_of(orig[j], axis, lo as int,
                        extent as int),
                forall|j: int|
                    0 <= j < orig.len() ==> lo <= centroid_axis(#[trigger] orig[j], axis)
                        <= hi,
                forall|j: int| 0 <= j < i ==> #[trigger] assignments@[j] <= 7,
            decreases orig.len() - i,
        {
            proof {
                lemma_surface_box_wf(objects@[i as int].surface);
            }
            let b = objects[i].surface.bounding_box();
            let c = b.centroid();
            let rel = c.axis(axis) - lo;
            let q = (rel * 8) / extent;
            proof {
                vstd::arithmetic::div_mod::lemma_div_pos_is_pos(rel * 8, extent as int);
            }
            let bin: usize = if q > 7 {
                7
            } else {
                q as usize
            };
            assignments.push(bin);
            i = i + 1;
        }
        // Accumulate each bin's box and count, then pick the cheapest
        // boundary.
        let mut bins: Vec<Bin> = Vec::new();
        let mut b_idx: usize = 0;
        while b_idx < NUM_BINS
            invariant
                objects@ == orig,
                2 <= orig.len() <= 0x1000_0000,
                objs_wf_seq(orig),
                assignments@.len() == orig.len(),
                bins@.len() == b_idx,
                b_idx <= NUM_BINS,
                bins_wf(bins@),
            decreases NUM_BINS - b_idx,
        {
            let mut bin = Bin::empty();
            i = 0;
            while i < objects.len()
                invariant
                    objects@ == orig,
                    2 <= orig.len() <= 0x1000_0000,
                    objs_wf_seq(orig),
                    assignments@.len() == orig.len(),
                    0 <= i <= orig.len(),
                    box_wf(bin.bb),
                    bin.count <= i,
                decreases orig.len() - i,
            {
                if *assignments.get(i).unwrap() == b_idx {
                    proof {
                        lemma_surface_box_wf(objects@[i as int].surface);
                    }
                    let obb = objects[i].surface.bounding_box();
                    bin.bb.merge(&obb);
                    bin.count = bin.count + 1;
                }
                i = i + 1;
            }
            bins.push(bin);
            b_idx = b_idx + 1;
        }
        let pidx = best_partition(&bins);
        // Route each object by its bin, popping from the back.
        let mut left: Vec<Object> = Vec::new();
        let mut right: Vec<Object> = Vec::new();
        proof {
            broadcast use group_to_multiset_ensures;

            assert(objects@ =~= orig.subrange(0, objects@.len() as int));
            assert(objects@.to_multiset().add(left@.to_multiset()).add(right@.to_multiset())
                =~= orig.to_multiset());
        }
        while objects.len() > 0
            invariant
                objects@ == orig.subrange(0, objects@.len() as int),
                objects@.len() <= orig.len(),
                orig.len() <= 0x1000_0000,
                objs_wf_seq(orig),
                assignments@.len() == orig.len(),
                objects@.to_multiset().add(left@.to_multiset()).add(right@.to_multiset())
                    == orig.to_multiset(),
                left@.len() + right@.len() + objects@.len() == orig.len(),
                objs_wf_seq(left@),
                objs_wf_seq(right@),
            decreases objects@.len(),
        {
            let ghost before = objects@;
            let o = objects.pop().unwrap();
            let k = objects.len();
            proof {
                broadcast use group_to_multiset_ensures;

                assert(before =~= objects@.push(orig[k as int]));
                assert(objects@ =~= orig.subrange(0, k as int));
                assert(before.to_multiset() =~= objects@.to_multiset().insert(orig[k as int]));
            }
            let ghost old_left = left@;
            let ghost old_right = right@;
            if *assignments.get(k).unwrap() < pidx {
                left.push(o);
                proof {
                    broadcast use group_to_multiset_ensures;

                    assert(objects@.to_multiset().add(left@.to_multiset()).add(
                        right@.to_multiset()) =~= orig.to_multiset());
                }
            } else {
                right.push(o);
                proof {
                    broadcast use group_to_multiset_ensures;

                    assert(objects@.to_multiset().add(left@.to_multiset()).add(
                        right@.to_multiset()) =~= orig.to_multiset());
                }
            }
        }
        // Never hand an empty side back.
        if left.len() == 0 {
            let ghost rbefore = right@;
            let o = right.pop().unwrap();
            left.push(o);
            proof {
                broadcast use group_to_multiset_ensures;

                assert(rbefore =~= right@.push(o));
                assert(left@.to_multiset().add(right@.to_multiset()) =~= orig.to_multiset());
            }
        } else if right.len() == 0 {
            let ghost lbefore = left@;
            let o = left.pop().unwrap();
            right.push(o);
            proof {
                broadcast use group_to_multiset_ensures;

                assert(lbefore =~= left@.push(o));
                assert(left@.to_multiset().add(right@.to_multiset()) =~= orig.to_multiset());
            }
        } else {
            proof {
                broadcast use group_to_multiset_ensures;

                assert(left@.to_multiset().add(right@.to_multiset()) =~= orig.to_multiset());
            }
        }
        (left, right)
    }
}

impl BvhNode {
    /// Build the subtree over the given objects: one object makes a leaf,
    /// more are partitioned in two and enclosed in the union of their
    /// boxes.
    fn build(objects: Vec<Object>) -> (r: Box<BvhNode>)
        requires
            1 <= objects@.len() <= 0x1000_0000,
            objs_wf_seq(objects@),
        ensures
            node_wf(*r),
            node_objs(*r).to_multiset() == objects@.to_multiset(),
        decreases objects@.len(),
    {
        let ghost orig = objects@;
        let mut objects = objects;
        if objects.len() == 1 {
            let o = objects.remove(0);
            proof {
                assert(orig =~= seq![o]);
                assert(node_objs(BvhNode::Leaf(o)) =~= seq![o]);
            }
            Box::new(BvhNode::Leaf(o))
        } else {
            let (left, right) = partition(objects);
            let lnode = BvhNode::build(left);
            let rnode = BvhNode::build(right);
            let bl = lnode.box_of();
            let br = rnode.box_of();
            let bb = BoundingBox::union(&bl, &br);
            proof {
                lemma_multiset_commutative(node_objs(*lnode), node_objs(*rnode));
            }
            Box::new(BvhNode::Node(bb, lnode, rnode))
        }
    }

    /// The box this node stands under.
    fn box_of(&self) -> (r: BoundingBox)
        requires
            node_wf(*self),
        ensures
            r == node_box(*self),
            box_wf(r),
    {
        match self {
            BvhNode::Leaf(o) => {
                proof {
                    lemma_surface_box_wf(o.surface);
                }
                o.surface.bounding_box()
            },
            BvhNode::Node(bb, _, _) => *bb,
        }
    }

    /// Query the subtree: a leaf delegates to its object; an interior node
    /// whose box the ray misses reports a miss, and one whose box is hit
    /// combines the children's answers, keeping the closer hit.
    fn sample<'a>(&'a self, ray: &Ray) -> (r: Option<Collision<'a>>)
        requires
            node_wf(*self),
            ray_wf(*ray),
        ensures
            match r {
                None => node_best(*self, *ray) is None,
                Some(c) => node_best(*self, *ray) == Some((c.intersection, *c.material)),
            },
        decreases *self,
    {
        match self {
            BvhNode::Leaf(obj) => obj.collide(ray),
            BvhNode::Node(bb, left, right) => {
                if bb.intersects(ray) {
                    let lc = left.sample(ray);
                    let rc = right.sample(ray);
                    match (lc, rc) {
                        (Some(l), Some(r_)) => if l.intersection.distance
                            < r_.intersection.distance {
                            Some(l)
                        } else {
                            Some(r_)
                        },
                        (Some(c), None) => Some(c),
                        (None, c) => c,
                    }
                } else {
                    None
                }
            },
        }
    }
}

impl BoundingVolumeHierarchy {
    /// Structural soundness of the whole tree.
    pub open spec fn wf(self) -> bool {
        node_wf(*self.root)
    }

    /// The objects the tree indexes.
    pub open spec fn objects(self) -> Seq<Object> {
        node_objs(*self.root)
    }

    /// Build the hierarchy over a non-empty list of objects. The tree holds
    /// exactly the given objects.
    pub fn new(objects: Vec<Object>) -> (r: BoundingVolumeHierarchy)
        requires
            1 <= objects@.len() <= 0x1000_0000,
            objs_wf_seq(objects@),
        ensures
            r.wf(),
            r.objects().to_multiset() == objects@.to_multiset(),
    {
        BoundingVolumeHierarchy { root: BvhNode::build(objects) }
    }

    /// The closest hit of the ray against the scene. The verdict equals
    /// the brute-force scan `scan_best` over every object in the tree:
    /// `None` exactly when everything misses, and otherwise the hit of
    /// least distance together with the hit object's material.
    pub fn sample(&self, ray: &Ray) -> (r: Option<Collision>)
        requires
            self.wf(),
            ray_wf(*ray),
        ensures
            match r {
                None => scan_best(self.objects(), *ray) is None,
                Some(c) => scan_best(self.objects(), *ray) == Some((c.intersection,
                    *c.material)),
            },
    {
        proof {
            lemma_bvh_equals_scan(*self.root, *ray);
        }
        self.root.sample(ray)
    }
}

/// The box of a contiguous range of bins: the union of their boxes, left
/// to right from the empty box.
pub open spec fn range_box(bins: Seq<Bin>, from: int, to: int) -> BoundingBox
    decreases to - from,
{
    if from >= to {
        empty_box()
    } else {
        union_spec(range_box(bins, from, to - 1), bins[to - 1].bb)
    }
}

/// The total object count of a contiguous range of bins.
pub open spec fn range_count(bins: Seq<Bin>, from: int, to: int) -> int
    decreases to - from,
{
    if from >= to {
        0
    } else {
        range_count(bins, from, to - 1) + bins[to - 1].count
    }
}

/// Union of a contiguous range of bins, exactly.
fn combine_bins(bins: &Vec<Bin>, from: usize, to: usize) -> (r: Bin)
    requires
        from <= to <= bins@.len(),
        bins@.len() <= 8,
        bins_wf(bins@),
    ensures
        r.bb == range_box(bins@, from as int, to as int),
        r.count == range_count(bins@, from as int, to as int),
        box_wf(r.bb),
        r.count <= 8 * 0x1000_0000,
{
    let mut result = Bin::empty();
    let mut i = from;
    while i < to
        invariant
            from <= i <= to <= bins@.len(),
            bins@.len() <= 8,
            result.bb == range_box(bins@, from as int, i as int),
            result.count == range_count(bins@, from as int, i as int),
            box_wf(result.bb),
            result.count <= (i - from) * 0x1000_0000,
            bins_wf(bins@),
        decreases to - i,
    {
        result.bb.merge(&bins[i].bb);
        proof {
            assert((i - from) * 0x1000_0000 + 0x1000_0000 == (i + 1 - from) * 0x1000_0000)
                by (nonlinear_arith);
        }
        result.count = result.count + bins[i].count;
        i = i + 1;
    }
    proof {
        assert((to - from) * 0x1000_0000 <= 8 * 0x1000_0000) by (nonlinear_arith)
            requires
                0 <= to - from <= 8,
        ;
    }
    result
}

} // verus!
