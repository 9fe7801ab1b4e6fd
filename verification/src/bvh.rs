//! The bounding-volume hierarchy: a binary tree of boxes over spheres.

use vstd::prelude::*;

use crate::aabb::{AABB, AabbV, aabb_hit_v, sur_v};
use crate::fx::Fx;
use crate::list::{scan_from, list_hit_v};
use crate::ray::{Ray, RayV};
use crate::rng::random_axis;
use crate::sphere::{Sphere, sphere_hit_v, sphere_box_v};
use crate::types::{HitRecord, HitV, opt_rec_v};
use crate::vec3::idx3;

verus! {

/// A child of a tree node: a single primitive, or a subtree.
pub enum BvhChild {
    Leaf(Sphere),
    Node(Box<BVHNode>),
}

/// An inner node: two children and the box around both of them.
pub struct BVHNode {
    pub left: BvhChild,
    pub right: BvhChild,
    pub bounding_box: AABB,
}

/// The box a child reports.
pub open spec fn child_box(c: BvhChild) -> AabbV
    decreases c,
{
    match c {
        BvhChild::Leaf(s) => sphere_box_v(s),
        BvhChild::Node(n) => n.bounding_box@,
    }
}

/// The primitives below a child, in tree order.
pub open spec fn child_leaves(c: BvhChild) -> Seq<Sphere>
    decreases c,
{
    match c {
        BvhChild::Leaf(s) => seq![s],
        BvhChild::Node(n) => node_leaves(*n),
    }
}

/// The primitives below a node, in tree order.
pub open spec fn node_leaves(n: BVHNode) -> Seq<Sphere>
    decreases n,
{
    child_leaves(n.left) + child_leaves(n.right)
}

/// A child is well-formed when any subtree below it is.
pub open spec fn child_wf(c: BvhChild) -> bool
    decreases c,
{
    match c {
        BvhChild::Leaf(_) => true,
        BvhChild::Node(n) => node_wf(*n),
    }
}

/// The tree invariant: every node's box is exactly the surrounding box of
/// its children's boxes, recursively.
pub open spec fn node_wf(n: BVHNode) -> bool
    decreases n,
{
    &&& n.bounding_box@ == sur_v(child_box(n.left), child_box(n.right))
    &&& child_wf(n.left)
    &&& child_wf(n.right)
}

/// What traversal of a child returns.
pub open spec fn child_hit_v(c: BvhChild, rv: RayV, tmin: int, tmax: int) -> Option<HitV>
    decreases c,
{
    match c {
        BvhChild::Leaf(s) => sphere_hit_v(s, rv, tmin, tmax),
        BvhChild::Node(n) => node_hit_v(*n, rv, tmin, tmax),
    }
}

/// What traversal of a node returns: nothing when the ray misses the
/// node's box; otherwise the right child is searched with the interval
/// tightened to any hit the left child found, and its hit is preferred.
pub open spec fn node_hit_v(n: BVHNode, rv: RayV, tmin: int, tmax: int) -> Option<HitV>
    decreases n,
{
    if !aabb_hit_v(n.bounding_box@, rv, tmin, tmax) {
        None
    } else {
        let hit_left = child_hit_v(n.left, rv, tmin, tmax);
        let tmax_right = match hit_left {
            Some(h) => h.t,
            None => tmax,
        };
        let hit_right = child_hit_v(n.right, rv, tmin, tmax_right);
        if hit_right is Some {
            hit_right
        } else {
            hit_left
        }
    }
}

/// The sort key used during construction: the box minimum on one axis.
pub open spec fn skey(s: Sphere, axis: int) -> int {
    idx3(sphere_box_v(s).min, axis)
}

/// Sorted in nondecreasing key order along an axis.
pub open spec fn sorted_by_axis(objs: Seq<Sphere>, axis: int) -> bool {
    forall|i: int, j: int|
        0 <= i < j < objs.len() ==> skey(objs[i], axis) <= skey(objs[j], axis)
}

/// A singleton sequence holds exactly its one element.
proof fn lemma_singleton_contains(s: Sphere, s2: Sphere)
    ensures
        seq![s].contains(s2) <==> s2 == s,
{
    if seq![s].contains(s2) {
        let k = choose|k: int| 0 <= k < seq![s].len() && seq![s][k] == s2;
        assert(seq![s][k] == s2);
    }
    assert(seq![s][0] == s);
}

/// The number of copies of an element in a singleton sequence.
proof fn lemma_singleton_count(e: Sphere, s: Sphere)
    ensures
        seq![e].to_multiset().count(s) == if s == e {
            1nat
        } else {
            0nat
        },
{
    broadcast use vstd::multiset::group_multiset_axioms;

    let empty = Seq::<Sphere>::empty();
    assert(seq![e] =~= empty.push(e));
    vstd::seq_lib::to_multiset_build(empty, e);
    vstd::seq_lib::to_multiset_contains(empty, s);
}

/// Copies of an element in a concatenation add up.
proof fn lemma_concat_count(a: Seq<Sphere>, b: Seq<Sphere>, s: Sphere)
    ensures
        (a + b).to_multiset().count(s) == a.to_multiset().count(s) + b.to_multiset().count(s),
{
    broadcast use vstd::multiset::group_multiset_axioms;

    vstd::seq_lib::lemma_multiset_commutative(a, b);
}

/// Membership distributes over sequence concatenation.
proof fn lemma_seq_concat_contains(a: Seq<Sphere>, b: Seq<Sphere>, s: Sphere)
    ensures
        (a + b).contains(s) <==> a.contains(s) || b.contains(s),
{
    if a.contains(s) {
        let i = choose|i: int| 0 <= i < a.len() && a[i] == s;
        assert((a + b)[i] == s);
    }
    if b.contains(s) {
        let i = choose|i: int| 0 <= i < b.len() && b[i] == s;
        assert((a + b)[a.len() + i] == s);
    }
    if (a + b).contains(s) {
        let i = choose|i: int| 0 <= i < (a + b).len() && (a + b)[i] == s;
        if i < a.len() {
            assert(a[i] == s);
        } else {
            assert(b[i - a.len()] == s);
        }
    }
}

/// The sort key, computed from the box of a sphere.
fn box_min_axis(s: &Sphere, axis: usize, time0: Fx, time1: Fx) -> (r: i64)
    requires
        axis < 3,
    ensures
        r as int == skey(*s, axis as int),
{
    s.bounding_box(time0, time1).min().get(axis).raw
}

/// Insertion sort by the box minimum along one axis: the result is sorted
/// and holds exactly the same objects.
fn sort_by_axis(objects: &mut Vec<Sphere>, axis: usize, time0: Fx, time1: Fx)
    requires
        axis < 3,
    ensures
        final(objects)@.to_multiset() == old(objects)@.to_multiset(),
        final(objects)@.len() == old(objects)@.len(),
        sorted_by_axis(final(objects)@, axis as int),
{
    let n: usize = objects.len();
    let ax = Ghost(axis as int);
    let mut i: usize = 1;
    while i < n
        invariant
            axis < 3,
            ax@ == axis as int,
            n == objects@.len(),
            1 <= i,
            i <= n || n <= 1,
            objects@.to_multiset() == old(objects)@.to_multiset(),
            forall|a: int, b: int|
                0 <= a < b < i && b < n ==> skey(objects@[a], ax@) <= skey(objects@[b], ax@),
        decreases n - i,
    {
        let mut j: usize = i;
        while j > 0 && box_min_axis(&objects[j - 1], axis, time0, time1) > box_min_axis(
            &objects[j],
            axis,
            time0,
            time1,
        )
            invariant
                axis < 3,
                ax@ == axis as int,
                n == objects@.len(),
                j <= i < n,
                objects@.to_multiset() == old(objects)@.to_multiset(),
                forall|a: int, b: int|
                    0 <= a < b <= i && a != j && b != j ==> skey(objects@[a], ax@) <= skey(
                        objects@[b],
                        ax@,
                    ),
                forall|b: int| j < b <= i ==> skey(objects@[j as int], ax@) <= skey(objects@[b], ax@),
            decreases j,
        {
            let x = objects[j - 1];
            let y = objects[j];
            let ghost pre = objects@;
            objects.set(j - 1, y);
            objects.set(j, x);
            proof {
                broadcast use vstd::multiset::group_multiset_axioms;
                broadcast use vstd::multiset::group_multiset_properties;

                vstd::seq_lib::to_multiset_update(pre, j - 1, y);
                vstd::seq_lib::to_multiset_update(pre.update(j - 1, y), j as int, x);
                assert(pre.update(j - 1, y)[j as int] == pre[j as int]);
                vstd::seq_lib::to_multiset_contains(pre, x);
                assert(pre[j - 1] == x);
                assert(pre.contains(x));
                assert(objects@.to_multiset() =~= pre.to_multiset());
            }
            j = j - 1;
        }
        i = i + 1;
    }
}

/// The box a child reports, read off without recursion.
fn child_bounding_box(c: &BvhChild, time0: Fx, time1: Fx) -> (r: AABB)
    ensures
        r@ == child_box(*c),
{
    match c {
        BvhChild::Leaf(s) => s.bounding_box(time0, time1),
        BvhChild::Node(n) => n.bounding_box,
    }
}

impl BVHNode {
    /// Build a tree over a nonempty set of objects: pick a random axis;
    /// a single object becomes both children, two objects are ordered by
    /// key, and more are sorted by key, split at the midpoint and built
    /// recursively.  The node's box surrounds both children's boxes, and
    /// the leaves are exactly the given objects.
    pub fn new(objects: Vec<Sphere>, time0: Fx, time1: Fx) -> (r: BVHNode)
        requires
            objects@.len() >= 1,
        ensures
            node_wf(r),
            forall|s: Sphere| node_leaves(r).contains(s) <==> objects@.contains(s),
            forall|s: Sphere| objects@.to_multiset().count(s) <= #[trigger] node_leaves(
                r,
            ).to_multiset().count(s),
            forall|s: Sphere| #[trigger] node_leaves(r).to_multiset().count(s) <= 2
                * objects@.to_multiset().count(s),
        decreases objects@.len(),
    {
        let ghost orig = objects@;
        let mut objects = objects;
        let axis = random_axis();
        let n: usize = objects.len();

        if n == 1 {
            let s = objects[0];
            let node = make_node(BvhChild::Leaf(s), BvhChild::Leaf(s), time0, time1);
            proof {
                assert forall|s2: Sphere| node_leaves(node).contains(s2) <==> orig.contains(
                    s2,
                ) by {
                    lemma_seq_concat_contains(
                        child_leaves(node.left),
                        child_leaves(node.right),
                        s2,
                    );
                    assert(child_leaves(node.left) == seq![s]);
                    lemma_singleton_contains(s, s2);
                    assert(orig.contains(s2) <==> s2 == s) by {
                        if orig.contains(s2) {
                            let k = choose|k: int| 0 <= k < orig.len() && orig[k] == s2;
                            assert(k == 0);
                        }
                        assert(orig[0] == s);
                    };
                }
                assert(orig =~= seq![s]);
                assert forall|s2: Sphere|
                    orig.to_multiset().count(s2) <= #[trigger] node_leaves(
                        node,
                    ).to_multiset().count(s2) <= 2 * orig.to_multiset().count(s2) by {
                    lemma_concat_count(child_leaves(node.left), child_leaves(node.right), s2);
                    lemma_singleton_count(s, s2);
                }
            }
            node
        } else if n == 2 {
            let s0 = objects[0];
            let s1 = objects[1];
            let k0 = box_min_axis(&s0, axis, time0, time1);
            let k1 = box_min_axis(&s1, axis, time0, time1);
            let node = if k0 < k1 {
                make_node(BvhChild::Leaf(s0), BvhChild::Leaf(s1), time0, time1)
            } else {
                make_node(BvhChild::Leaf(s1), BvhChild::Leaf(s0), time0, time1)
            };
            proof {
                assert forall|s2: Sphere| node_leaves(node).contains(s2) <==> orig.contains(
                    s2,
                ) by {
                    lemma_seq_concat_contains(
                        child_leaves(node.left),
                        child_leaves(node.right),
                        s2,
                    );
                    lemma_singleton_contains(s0, s2);
                    lemma_singleton_contains(s1, s2);
                    assert(orig.contains(s2) <==> (s2 == s0 || s2 == s1)) by {
                        if orig.contains(s2) {
                            let k = choose|k: int| 0 <= k < orig.len() && orig[k] == s2;
                            assert(k == 0 || k == 1);
                        }
                        assert(orig[0] == s0 && orig[1] == s1);
                    };
                }
                assert(orig =~= seq![s0] + seq![s1]);
                assert forall|s2: Sphere|
                    orig.to_multiset().count(s2) <= #[trigger] node_leaves(
                        node,
                    ).to_multiset().count(s2) <= 2 * orig.to_multiset().count(s2) by {
                    lemma_concat_count(child_leaves(node.left), child_leaves(node.right), s2);
                    lemma_concat_count(seq![s0], seq![s1], s2);
                    lemma_singleton_count(s0, s2);
                    lemma_singleton_count(s1, s2);
                }
            }
            node
        } else {
            sort_by_axis(&mut objects, axis, time0, time1);
            let ghost sorted_all = objects@;
            let mid: usize = objects.len() / 2;
            let right_objects = objects.split_off(mid);
            let ghost leftseq = objects@;
            let ghost rightseq = right_objects@;
            let left_node = BVHNode::new(objects, time0, time1);
            let right_node = BVHNode::new(right_objects, time0, time1);
            let ghost lnv = left_node;
            let ghost rnv = right_node;
            let node = make_node(
                BvhChild::Node(Box::new(left_node)),
                BvhChild::Node(Box::new(right_node)),
                time0,
                time1,
            );
            proof {
                assert(sorted_all =~= leftseq + rightseq);
                assert forall|s2: Sphere| node_leaves(node).contains(s2) <==> orig.contains(
                    s2,
                ) by {
                    lemma_seq_concat_contains(
                        child_leaves(node.left),
                        child_leaves(node.right),
                        s2,
                    );
                    lemma_seq_concat_contains(leftseq, rightseq, s2);
                    vstd::seq_lib::to_multiset_contains(sorted_all, s2);
                    vstd::seq_lib::to_multiset_contains(orig, s2);
                }
                assert(child_leaves(node.left) == node_leaves(lnv));
                assert(child_leaves(node.right) == node_leaves(rnv));
                assert forall|s2: Sphere|
                    orig.to_multiset().count(s2) <= #[trigger] node_leaves(
                        node,
                    ).to_multiset().count(s2) <= 2 * orig.to_multiset().count(s2) by {
                    lemma_concat_count(child_leaves(node.left), child_leaves(node.right), s2);
                    lemma_concat_count(leftseq, rightseq, s2);
                    assert(leftseq.to_multiset().count(s2) <= node_leaves(
                        lnv,
                    ).to_multiset().count(s2) <= 2 * leftseq.to_multiset().count(s2));
                    assert(rightseq.to_multiset().count(s2) <= node_leaves(
                        rnv,
                    ).to_multiset().count(s2) <= 2 * rightseq.to_multiset().count(s2));
                    assert(orig.to_multiset() == sorted_all.to_multiset());
                }
            }
            node
        }
    }

    /// The node's box.
    pub fn bounding_box(&self, _time0: Fx, _time1: Fx) -> (r: AABB)
        ensures
            r@ == self.bounding_box@,
    {
        self.bounding_box
    }

    /// Traverse the tree: reject on the node's box, search the left child,
    /// then the right child within the tightened interval, and prefer the
    /// right child's hit.
    pub fn hit(&self, ray: &Ray, t_min: Fx, t_max: Fx) -> (r: Option<HitRecord>)
        ensures
            opt_rec_v(r) == node_hit_v(*self, ray@, t_min.v(), t_max.v()),
        decreases *self,
    {
        if !self.bounding_box.hit(ray, t_min, t_max) {
            return None;
        }

        let hit_left = self.left.hit(ray, t_min, t_max);
        let t_max_right = match &hit_left {
            Some(h) => h.t,
            None => t_max,
        };
        let hit_right = self.right.hit(ray, t_min, t_max_right);

        match hit_right {
            Some(h) => Some(h),
            None => hit_left,
        }
    }
}

impl BvhChild {
    /// Traverse a child.
    pub fn hit(&self, ray: &Ray, t_min: Fx, t_max: Fx) -> (r: Option<HitRecord>)
        ensures
            opt_rec_v(r) == child_hit_v(*self, ray@, t_min.v(), t_max.v()),
        decreases *self,
    {
        match self {
            BvhChild::Leaf(s) => s.hit(ray, t_min, t_max),
            BvhChild::Node(n) => n.hit(ray, t_min, t_max),
        }
    }
}

/// Every hit a node's traversal reports is a genuine intersection of one
/// of its leaves: there is a leaf sphere and an upper bound no larger
/// than the query's whose intersection test returns exactly that hit.
/// Together with the linear scan's contract this is the sound half of
/// the agreement between tree traversal and a scan over the same set.
pub proof fn lemma_node_hit_sound(n: BVHNode, rv: RayV, tmin: int, tmax: int)
    ensures
        node_hit_v(n, rv, tmin, tmax) matches Some(h) ==> exists|s: Sphere, tm: int|
            node_leaves(n).contains(s) && tm <= tmax && #[trigger] sphere_hit_v(s, rv, tmin, tm)
                == Some(h),
    decreases n,
{
    if node_hit_v(n, rv, tmin, tmax) is Some {
        let hit_left = child_hit_v(n.left, rv, tmin, tmax);
        let tmax_right = match hit_left {
            Some(h) => h.t,
            None => tmax,
        };
        lemma_child_hit_sound(n.left, rv, tmin, tmax);
        lemma_child_hit_sound(n.right, rv, tmin, tmax_right);
        match hit_left {
            Some(hl) => {
            let (s, tm) = choose|s: Sphere, tm: int|
                child_leaves(n.left).contains(s) && tm <= tmax && #[trigger] sphere_hit_v(
                    s,
                    rv,
                    tmin,
                    tm,
                ) == Some(hl);
            crate::sphere::lemma_sphere_hit_t_range(s, rv, tmin, tm);
            assert(hl.t <= tmax);
            },
            None => {},
        }
        let hit_right = child_hit_v(n.right, rv, tmin, tmax_right);
        match hit_right {
            Some(h) => {
            let (s, tm) = choose|s: Sphere, tm: int|
                child_leaves(n.right).contains(s) && tm <= tmax_right && #[trigger] sphere_hit_v(
                    s,
                    rv,
                    tmin,
                    tm,
                ) == Some(h);
            lemma_seq_concat_contains(child_leaves(n.left), child_leaves(n.right), s);
            assert(node_leaves(n).contains(s) && tm <= tmax && sphere_hit_v(s, rv, tmin, tm)
                == Some(h));
            },
            None => {
            let h = node_hit_v(n, rv, tmin, tmax)->Some_0;
            let (s, tm) = choose|s: Sphere, tm: int|
                child_leaves(n.left).contains(s) && tm <= tmax && #[trigger] sphere_hit_v(
                    s,
                    rv,
                    tmin,
                    tm,
                ) == Some(h);
            lemma_seq_concat_contains(child_leaves(n.left), child_leaves(n.right), s);
            assert(node_leaves(n).contains(s) && tm <= tmax && sphere_hit_v(s, rv, tmin, tm)
                == Some(h));
            },
        }
    }
}

/// The same soundness statement for a child.
pub proof fn lemma_child_hit_sound(c: BvhChild, rv: RayV, tmin: int, tmax: int)
    ensures
        child_hit_v(c, rv, tmin, tmax) matches Some(h) ==> exists|s: Sphere, tm: int|
            child_leaves(c).contains(s) && tm <= tmax && #[trigger] sphere_hit_v(s, rv, tmin, tm)
                == Some(h),
    decreases c,
{
    match c {
        BvhChild::Leaf(s) => {
            match child_hit_v(c, rv, tmin, tmax) {
                Some(h) => {
                    assert(seq![s][0] == s);
                    assert(child_leaves(c).contains(s));
                    assert(sphere_hit_v(s, rv, tmin, tmax) == Some(h));
                },
                None => {},
            }
        },
        BvhChild::Node(n) => {
            lemma_node_hit_sound(*n, rv, tmin, tmax);
        },
    }
}

/// No box test prunes a child for the given query.
pub open spec fn unpruned_child(c: BvhChild, rv: RayV, tmin: int, tmax: int) -> bool
    decreases c,
{
    match c {
        BvhChild::Leaf(_) => true,
        BvhChild::Node(n) => unpruned_node(*n, rv, tmin, tmax),
    }
}

/// No box test prunes any subtree of a node for the given query: the
/// node's own box accepts the ray, and so do both children's, with the
/// same interval tightening the traversal applies.
pub open spec fn unpruned_node(n: BVHNode, rv: RayV, tmin: int, tmax: int) -> bool
    decreases n,
{
    &&& aabb_hit_v(n.bounding_box@, rv, tmin, tmax)
    &&& unpruned_child(n.left, rv, tmin, tmax)
    &&& {
        let tmax_right = match child_hit_v(n.left, rv, tmin, tmax) {
            Some(h) => h.t,
            None => tmax,
        };
        unpruned_child(n.right, rv, tmin, tmax_right)
    }
}

/// Scanning a concatenation from a position past its left part scans the
/// right part.
proof fn lemma_scan_shift(
    a: Seq<Sphere>,
    b: Seq<Sphere>,
    j: int,
    rv: RayV,
    tmin: int,
    closest: int,
    best: Option<HitV>,
)
    requires
        0 <= j <= b.len(),
    ensures
        scan_from(a + b, a.len() + j, rv, tmin, closest, best) == scan_from(
            b,
            j,
            rv,
            tmin,
            closest,
            best,
        ),
    decreases b.len() - j,
{
    if j < b.len() {
        assert((a + b)[a.len() + j] == b[j]);
        match sphere_hit_v(b[j], rv, tmin, closest) {
            Some(h) => lemma_scan_shift(a, b, j + 1, rv, tmin, h.t, Some(h)),
            None => lemma_scan_shift(a, b, j + 1, rv, tmin, closest, best),
        }
    }
}

/// A scan that starts from an already-found best hit (with the interval
/// tightened to it) returns what the fresh scan of the remainder finds,
/// or that best hit when the remainder finds nothing.
proof fn lemma_scan_with_best(
    objs: Seq<Sphere>,
    i: int,
    rv: RayV,
    tmin: int,
    closest: int,
    best: Option<HitV>,
)
    requires
        best matches Some(h) ==> closest == h.t,
    ensures
        scan_from(objs, i, rv, tmin, closest, best) == (match scan_from(
            objs,
            i,
            rv,
            tmin,
            closest,
            None,
        ) {
            Some(x) => Some(x),
            None => best,
        }),
    decreases objs.len() - i,
{
    if 0 <= i < objs.len() {
        match sphere_hit_v(objs[i], rv, tmin, closest) {
            Some(h) => lemma_scan_with_best(objs, i + 1, rv, tmin, h.t, Some(h)),
            None => lemma_scan_with_best(objs, i + 1, rv, tmin, closest, best),
        }
    }
}

/// Scanning a concatenation scans the left part, then the right part
/// within the interval tightened to the left part's best hit.
#[verifier::rlimit(50)]
proof fn lemma_scan_concat(
    a: Seq<Sphere>,
    b: Seq<Sphere>,
    i: int,
    rv: RayV,
    tmin: int,
    closest: int,
    best: Option<HitV>,
)
    requires
        0 <= i <= a.len(),
        best matches Some(h) ==> closest == h.t,
    ensures
        scan_from(a + b, i, rv, tmin, closest, best) == ({
            let ha = scan_from(a, i, rv, tmin, closest, best);
            let c2 = match ha {
                Some(h) => h.t,
                None => closest,
            };
            scan_from(b, 0, rv, tmin, c2, ha)
        }),
    decreases a.len() - i,
{
    if i == a.len() {
        lemma_scan_shift(a, b, 0, rv, tmin, closest, best);
        assert(scan_from(a + b, i, rv, tmin, closest, best) == scan_from(
            b,
            0,
            rv,
            tmin,
            closest,
            best,
        ));
        assert(scan_from(a, i, rv, tmin, closest, best) == best);
        match best {
            Some(h) => {
                assert(closest == h.t);
            },
            None => {},
        }
    } else {
        assert((a + b)[i] == a[i]);
        assert(0 <= i < (a + b).len());
        match sphere_hit_v(a[i], rv, tmin, closest) {
            Some(h) => {
                lemma_scan_concat(a, b, i + 1, rv, tmin, h.t, Some(h));
                lemma_scan_with_best(a, i + 1, rv, tmin, h.t, Some(h));
                assert(scan_from(a + b, i, rv, tmin, closest, best) == scan_from(
                    a + b,
                    i + 1,
                    rv,
                    tmin,
                    h.t,
                    Some(h),
                ));
                assert(scan_from(a, i, rv, tmin, closest, best) == scan_from(
                    a,
                    i + 1,
                    rv,
                    tmin,
                    h.t,
                    Some(h),
                ));
            },
            None => {
                lemma_scan_concat(a, b, i + 1, rv, tmin, closest, best);
                assert(scan_from(a + b, i, rv, tmin, closest, best) == scan_from(
                    a + b,
                    i + 1,
                    rv,
                    tmin,
                    closest,
                    best,
                ));
                assert(scan_from(a, i, rv, tmin, closest, best) == scan_from(
                    a,
                    i + 1,
                    rv,
                    tmin,
                    closest,
                    best,
                ));
            },
        }
    }
}

/// Traversal completeness, relative to pruning: when no box test prunes
/// any subtree for this query, the tree returns exactly what the
/// closest-hit linear scan over its leaves returns.  Together with the
/// unconditional soundness lemma below, this pins the hierarchy's
/// guarantee: the box tests are the one step whose geometric
/// justification lies outside the saturating arithmetic, and a pruned
/// subtree can only remove work, never change a reported hit into a
/// wrong one.
pub proof fn lemma_node_hit_unpruned_is_scan(n: BVHNode, rv: RayV, tmin: int, tmax: int)
    requires
        unpruned_node(n, rv, tmin, tmax),
    ensures
        node_hit_v(n, rv, tmin, tmax) == list_hit_v(node_leaves(n), rv, tmin, tmax),
    decreases n,
{
    let left_leaves = child_leaves(n.left);
    let right_leaves = child_leaves(n.right);
    let hit_left = child_hit_v(n.left, rv, tmin, tmax);
    let tmax_right = match hit_left {
        Some(h) => h.t,
        None => tmax,
    };
    lemma_child_hit_unpruned_is_scan(n.left, rv, tmin, tmax);
    lemma_child_hit_unpruned_is_scan(n.right, rv, tmin, tmax_right);
    lemma_scan_concat(left_leaves, right_leaves, 0, rv, tmin, tmax, None);
    lemma_scan_with_best(right_leaves, 0, rv, tmin, tmax_right, hit_left);
}

/// The same completeness statement for a child.
pub proof fn lemma_child_hit_unpruned_is_scan(c: BvhChild, rv: RayV, tmin: int, tmax: int)
    requires
        unpruned_child(c, rv, tmin, tmax),
    ensures
        child_hit_v(c, rv, tmin, tmax) == list_hit_v(child_leaves(c), rv, tmin, tmax),
    decreases c,
{
    match c {
        BvhChild::Leaf(s) => {
            assert(seq![s][0] == s);
            match sphere_hit_v(s, rv, tmin, tmax) {
                Some(h) => {
                    assert(scan_from(seq![s], 1, rv, tmin, h.t, Some(h)) == Some(h));
                },
                None => {
                    assert(scan_from(seq![s], 1, rv, tmin, tmax, None) is None);
                },
            }
        },
        BvhChild::Node(n) => {
            lemma_node_hit_unpruned_is_scan(*n, rv, tmin, tmax);
        },
    }
}

/// Build a node over two well-formed children: its box surrounds theirs.
fn make_node(left: BvhChild, right: BvhChild, time0: Fx, time1: Fx) -> (r: BVHNode)
    requires
        child_wf(left),
        child_wf(right),
    ensures
        r.left == left,
        r.right == right,
        node_wf(r),
        node_leaves(r) == child_leaves(left) + child_leaves(right),
{
    let box_left = child_bounding_box(&left, time0, time1);
    let box_right = child_bounding_box(&right, time0, time1);
    let bounding_box = AABB::surrounding_box(&box_left, &box_right);
    BVHNode { left, right, bounding_box }
}

} // verus!
