//! The bounding-volume hierarchy: a binary tree over bounded shapes, built
//! by median split along the longest axis, traversed front to back with
//! branch-and-bound pruning.
//!
//! The traversal contract is the heart of this crate: `Bvh::intersect`
//! returns exactly the nearest hit that a brute-force scan over all the
//! contained shapes would find (`is_min_hit`), because a pruned node's box
//! test proves that no shape inside it can beat the running bound.

use crate::bound_box::BoundBox;
use crate::ray::{spec_along, Ray};
use crate::shape::{Intersection, T_MAX_HIT};
use vstd::prelude::*;
use vstd::seq_lib::lemma_multiset_commutative;

verus! {

/// A shape that can report a bounding box and a ray intersection, with
/// enough guarantees for sound tree pruning.
pub trait BoundedShape: Sized {
    /// The shape's well-formedness condition.
    spec fn shape_wf(&self) -> bool;

    /// The shape's bounding box.
    spec fn spec_bound(&self) -> BoundBox;

    /// What `intersect` returns.
    spec fn spec_hit(&self, ray: Ray) -> Option<Intersection>;

    fn bound(&self) -> (b: BoundBox)
        requires
            self.shape_wf(),
        ensures
            b == self.spec_bound(),
            b.wf(),
    ;

    fn intersect(&self, ray: &Ray) -> (r: Option<Intersection>)
        requires
            self.shape_wf(),
            ray.wf(),
            ray.origin.radius_vector.bounded(0x4000_0000),
        ensures
            r == self.spec_hit(*ray),
    ;

    /// Every hit is a valid forward hit whose point lies inside the
    /// shape's bounding box.
    proof fn hit_valid(self, ray: Ray)
        requires
            self.shape_wf(),
            ray.wf(),
            ray.origin.radius_vector.bounded(0x4000_0000),
        ensures
            self.spec_hit(ray) matches Some(i) ==> i.valid_for(ray)
                && self.spec_bound().contains(i.point),
    ;
}

pub enum Node<T> {
    Leaf { shape: T },
    Interior { left: Box<Node<T>>, right: Box<Node<T>>, axis: usize, bound: BoundBox },
}

impl<T: BoundedShape + Copy> Node<T> {
    /// The shapes stored in this subtree, left to right.
    pub open spec fn shapes(&self) -> Seq<T>
        decreases self,
    {
        match self {
            Node::Leaf { shape } => seq![*shape],
            Node::Interior { left, right, .. } => left.shapes() + right.shapes(),
        }
    }

    /// The number of tree nodes in this subtree.
    pub open spec fn size(&self) -> nat
        decreases self,
    {
        match self {
            Node::Leaf { .. } => 1,
            Node::Interior { left, right, .. } => 1 + left.size() + right.size(),
        }
    }

    /// The bounding box of this subtree.
    pub open spec fn spec_node_bound(&self) -> BoundBox {
        match self {
            Node::Leaf { shape } => shape.spec_bound(),
            Node::Interior { bound, .. } => *bound,
        }
    }

    /// The structural invariant: shapes are well-formed, boxes are solid,
    /// and every interior bound is the union of its children's bounds.
    pub open spec fn inv(&self) -> bool
        decreases self,
    {
        match self {
            Node::Leaf { shape } => shape.shape_wf() && shape.spec_bound().wf(),
            Node::Interior { left, right, axis, bound } => {
                &&& left.inv()
                &&& right.inv()
                &&& *axis < 3
                &&& *bound == crate::bound_box::spec_union(
                    left.spec_node_bound(),
                    right.spec_node_bound(),
                )
            },
        }
    }

    /// Under the invariant every shape in the subtree is well-formed, and
    /// its bounding box lies inside the subtree's bound, which is solid.
    pub proof fn lemma_inv_bounds(&self)
        requires
            self.inv(),
        ensures
            self.spec_node_bound().wf(),
            forall|i: int|
                0 <= i < self.shapes().len() ==> (#[trigger] self.shapes()[i]).shape_wf()
                    && self.shapes()[i].spec_bound().subset_of(self.spec_node_bound()),
        decreases self,
    {
        match self {
            Node::Leaf { shape } => {
                assert(self.shapes() =~= seq![*shape]);
            },
            Node::Interior { left, right, axis, bound } => {
                left.lemma_inv_bounds();
                right.lemma_inv_bounds();
                assert forall|i: int| 0 <= i < self.shapes().len() implies (#[trigger] self.shapes()[
                i]).shape_wf() && self.shapes()[i].spec_bound().subset_of(
                    self.spec_node_bound(),
                ) by {
                    if i < left.shapes().len() {
                        assert(self.shapes()[i] == left.shapes()[i]);
                    } else {
                        assert(self.shapes()[i] == right.shapes()[i - left.shapes().len()]);
                    }
                }
            },
        }
    }

    /// The bounding box of this subtree.
    pub fn node_bound(&self) -> (b: BoundBox)
        requires
            self.inv(),
        ensures
            b == self.spec_node_bound(),
            b.wf(),
    {
        proof {
            self.lemma_inv_bounds();
        }
        match self {
            Node::Leaf { shape } => shape.bound(),
            Node::Interior { bound, .. } => *bound,
        }
    }
}

/// The result `r` is exactly what a brute-force nearest-hit scan over
/// `shapes` would produce: `None` exactly when nothing hits, otherwise a
/// hit of one of the shapes with a minimal parameter.
pub open spec fn is_min_hit<T: BoundedShape>(
    shapes: Seq<T>,
    ray: Ray,
    r: Option<Intersection>,
) -> bool {
    match r {
        None => forall|k: int|
            0 <= k < shapes.len() ==> (#[trigger] shapes[k]).spec_hit(ray) is None,
        Some(i) => {
            &&& i.valid_for(ray)
            &&& exists|k: int|
                0 <= k < shapes.len() && (#[trigger] shapes[k]).spec_hit(ray) == Some(i)
            &&& forall|k: int|
                0 <= k < shapes.len() ==> match (#[trigger] shapes[k]).spec_hit(ray) {
                    Some(j) => i.t <= j.t,
                    None => true,
                }
        },
    }
}

/// The nearest hit is determined by the multiset of shapes alone: any two
/// results that are minimal over multiset-equal collections agree on
/// hit/miss and on the hit parameter. In particular, the tree traversal and
/// a brute-force scan over the same shapes agree.
pub proof fn lemma_min_hit_agreement<T: BoundedShape>(
    s1: Seq<T>,
    s2: Seq<T>,
    ray: Ray,
    a: Option<Intersection>,
    b: Option<Intersection>,
)
    requires
        s1.to_multiset() == s2.to_multiset(),
        is_min_hit(s1, ray, a),
        is_min_hit(s2, ray, b),
    ensures
        a is Some <==> b is Some,
        a matches Some(i) ==> b matches Some(j) && i.t == j.t,
{
    broadcast use vstd::seq_lib::group_to_multiset_ensures;

    match a {
        None => {
            match b {
                None => {},
                Some(j) => {
                    let k = choose|k: int|
                        0 <= k < s2.len() && (#[trigger] s2[k]).spec_hit(ray) == Some(j);
                    assert(s2.contains(s2[k]));
                    assert(s1.to_multiset().count(s2[k]) > 0);
                    assert(s1.contains(s2[k]));
                    let m = choose|m: int| 0 <= m < s1.len() && s1[m] == s2[k];
                    assert(s1[m].spec_hit(ray) is None);
                },
            }
        },
        Some(i) => {
            let k = choose|k: int| 0 <= k < s1.len() && (#[trigger] s1[k]).spec_hit(ray) == Some(i);
            assert(s1.contains(s1[k]));
            assert(s2.to_multiset().count(s1[k]) > 0);
            assert(s2.contains(s1[k]));
            let m = choose|m: int| 0 <= m < s2.len() && s2[m] == s1[k];
            match b {
                None => {
                    assert(s2[m].spec_hit(ray) is None);
                },
                Some(j) => {
                    assert(j.t <= i.t);
                    let k2 = choose|k2: int|
                        0 <= k2 < s2.len() && (#[trigger] s2[k2]).spec_hit(ray) == Some(j);
                    assert(s2.contains(s2[k2]));
                    assert(s1.to_multiset().count(s2[k2]) > 0);
                    assert(s1.contains(s2[k2]));
                    let m2 = choose|m2: int| 0 <= m2 < s1.len() && s1[m2] == s2[k2];
                    assert(s1[m2].spec_hit(ray) == Some(j));
                    assert(i.t <= j.t);
                },
            }
        },
    }
}

/// The shapes hanging from every node still on the traversal stack.
pub open spec fn stack_shapes<T: BoundedShape + Copy>(todo: Seq<&Node<T>>) -> Seq<T>
    decreases todo.len(),
{
    if todo.len() == 0 {
        Seq::empty()
    } else {
        stack_shapes(todo.drop_last()) + todo.last().shapes()
    }
}

/// The total node count of every subtree on the traversal stack.
pub open spec fn stack_size<T: BoundedShape + Copy>(todo: Seq<&Node<T>>) -> nat
    decreases todo.len(),
{
    if todo.len() == 0 {
        0
    } else {
        stack_size(todo.drop_last()) + todo.last().size()
    }
}

/// Membership in a concatenation is membership in either part.
proof fn lemma_concat_contains<T>(a: Seq<T>, b: Seq<T>, s: T)
    ensures
        (a + b).contains(s) <==> a.contains(s) || b.contains(s),
{
    if a.contains(s) {
        let i = choose|i: int| 0 <= i < a.len() && a[i] == s;
        assert((a + b)[i] == s);
    }
    if b.contains(s) {
        let i = choose|i: int| 0 <= i < b.len() && b[i] == s;
        assert((a + b)[a.len() + i] == s);
    }
    if (a + b).contains(s) {
        let i = choose|i: int| 0 <= i < (a + b).len() && (a + b)[i] == s;
        if i < a.len() {
            assert(a[i] == s);
        } else {
            assert(b[i - a.len()] == s);
        }
    }
}

pub struct Bvh<T> {
    pub root: Node<T>,
}

impl<T: BoundedShape + Copy> Bvh<T> {
    pub open spec fn wf(&self) -> bool {
        self.root.inv()
    }

    /// The shapes the tree holds, in tree order.
    pub open spec fn spec_shapes(&self) -> Seq<T> {
        self.root.shapes()
    }

    /// Builds the tree over a non-empty collection. The tree holds exactly
    /// the given shapes.
    pub fn new(shapes: Vec<T>) -> (r: Bvh<T>)
        requires
            shapes@.len() >= 1,
            forall|i: int| 0 <= i < shapes@.len() ==> (#[trigger] shapes@[i]).shape_wf(),
        ensures
            r.wf(),
            r.spec_shapes().to_multiset() == shapes@.to_multiset(),
    {
        let root = build(shapes);
        Bvh { root }
    }

    /// Nearest-hit traversal with front-to-back ordering and pruning: the
    /// result is exactly the brute-force nearest hit over all shapes.
    pub fn intersect(&self, ray: &Ray) -> (r: Option<Intersection>)
        requires
            self.wf(),
            ray.wf(),
            ray.origin.radius_vector.bounded(0x4000_0000),
        ensures
            is_min_hit(self.spec_shapes(), *ray, r),
    {
        let ghost total = self.spec_shapes();
        let mut todo: Vec<&Node<T>> = Vec::new();
        let mut result: Option<Intersection> = None;
        let mut t_bound: i64 = i64::MAX;
        todo.push(&self.root);
        proof {
            let s0 = todo@.drop_last();
            assert(s0.len() == 0);
            assert(stack_shapes(s0) =~= Seq::<T>::empty());
            assert(todo@.last() == &self.root);
            assert(stack_shapes(todo@) =~= total);
            self.root.lemma_inv_bounds();
        }
        while todo.len() > 0
            invariant
                ray.wf(),
                ray.origin.radius_vector.bounded(0x4000_0000),
                forall|m: int| 0 <= m < todo@.len() ==> (#[trigger] todo@[m]).inv(),
                forall|s: T| stack_shapes(todo@).contains(s) ==> total.contains(s),
                forall|k: int| 0 <= k < total.len() ==> (#[trigger] total[k]).shape_wf(),
                t_bound >= 0,
                match result {
                    None => t_bound == i64::MAX,
                    Some(i) => {
                        &&& t_bound == i.t
                        &&& i.valid_for(*ray)
                        &&& exists|k: int|
                            0 <= k < total.len() && (#[trigger] total[k]).spec_hit(*ray) == Some(i)
                    },
                },
                forall|k: int|
                    0 <= k < total.len() ==> match (#[trigger] total[k]).spec_hit(*ray) {
                        Some(j) => j.t >= t_bound || stack_shapes(todo@).contains(total[k]),
                        None => true,
                    },
            decreases stack_size(todo@),
        {
            let ghost pre = todo@;
            let node_opt = todo.pop();
            let node = node_opt.unwrap();
            proof {
                assert(pre.drop_last() =~= todo@);
                assert(stack_shapes(pre) == stack_shapes(todo@) + node.shapes());
                node.lemma_inv_bounds();
            }
            let nb = node.node_bound();
            if !nb.is_intersected(ray, t_bound) {
                proof {
                    assert forall|k: int|
                        0 <= k < total.len() implies match (#[trigger] total[k]).spec_hit(*ray) {
                        Some(j) => j.t >= t_bound || stack_shapes(todo@).contains(total[k]),
                        None => true,
                    } by {
                        match total[k].spec_hit(*ray) {
                            Some(j) => {
                                lemma_concat_contains(
                                    stack_shapes(todo@),
                                    node.shapes(),
                                    total[k],
                                );
                                if j.t < t_bound && node.shapes().contains(total[k]) {
                                    total[k].hit_valid(*ray);
                                    let idx = choose|idx: int|
                                        0 <= idx < node.shapes().len() && node.shapes()[idx]
                                            == total[k];
                                    assert(node.shapes()[idx].spec_bound().subset_of(
                                        node.spec_node_bound(),
                                    ));
                                    assert(nb.contains(spec_along(*ray, j.t as int)));
                                    assert(false);
                                }
                            },
                            None => {},
                        }
                    }
                    assert forall|s: T| stack_shapes(todo@).contains(s) implies total.contains(
                        s,
                    ) by {
                        lemma_concat_contains(stack_shapes(todo@), node.shapes(), s);
                    }
                }
                continue ;
            }
            match node {
                Node::Leaf { shape } => {
                    let hit = shape.intersect(ray);
                    proof {
                        shape.hit_valid(*ray);
                        assert(node.shapes() =~= seq![*shape]);
                        assert(node.shapes()[0] == *shape);
                        assert(node.shapes().contains(*shape));
                        assert forall|s: T| stack_shapes(todo@).contains(s) implies total.contains(
                            s,
                        ) by {
                            lemma_concat_contains(stack_shapes(todo@), node.shapes(), s);
                        }
                        lemma_concat_contains(stack_shapes(todo@), node.shapes(), *shape);
                        assert(stack_shapes(pre).contains(*shape));
                        assert(total.contains(*shape));
                        assert forall|k: int|
                            0 <= k < total.len() implies match (#[trigger] total[k]).spec_hit(
                            *ray,
                        ) {
                            Some(j) => j.t >= t_bound || stack_shapes(todo@).contains(total[k])
                                || total[k] == *shape,
                            None => true,
                        } by {
                            lemma_concat_contains(stack_shapes(todo@), node.shapes(), total[k]);
                        }
                    }
                    match hit {
                        Some(i) => {
                            if i.t <= t_bound {
                                result = Some(i);
                                t_bound = i.t;
                                proof {
                                    let m = choose|m: int|
                                        0 <= m < total.len() && total[m] == *shape;
                                    assert(total[m].spec_hit(*ray) == Some(i));
                                }
                            }
                        },
                        None => {},
                    }
                },
                Node::Interior { left, right, axis, .. } => {
                    let ghost base = todo@;
                    let dir_c = ray.direction.direction.coord(*axis);
                    if dir_c >= 0 {
                        todo.push(&**right);
                        todo.push(&**left);
                    } else {
                        todo.push(&**left);
                        todo.push(&**right);
                    }
                    proof {
                        let t2 = todo@;
                        let t1 = t2.drop_last();
                        let x = t2[base.len() as int];
                        let y = t2[base.len() as int + 1];
                        assert(t1 =~= base.push(x));
                        assert(t1.drop_last() =~= base);
                        assert(t1.last() == x);
                        assert(t2.last() == y);
                        assert(stack_shapes(t2) == stack_shapes(t1) + y.shapes());
                        assert(stack_shapes(t1) == stack_shapes(base) + x.shapes());
                        assert(stack_size(t2) == stack_size(t1) + y.size());
                        assert(stack_size(t1) == stack_size(base) + x.size());
                        assert(node.shapes() == left.shapes() + right.shapes());
                        assert(x.size() + y.size() == left.size() + right.size());
                        assert(stack_size(pre) == stack_size(base) + node.size());
                        assert forall|s: T| stack_shapes(t2).contains(s) <==> stack_shapes(
                            pre,
                        ).contains(s) by {
                            lemma_concat_contains(
                                stack_shapes(base) + x.shapes(),
                                y.shapes(),
                                s,
                            );
                            lemma_concat_contains(stack_shapes(base), x.shapes(), s);
                            lemma_concat_contains(stack_shapes(base), node.shapes(), s);
                            lemma_concat_contains(left.shapes(), right.shapes(), s);
                        }
                    }
                },
            }
        }
        proof {
            assert(todo@.len() == 0);
            if result is None {
                assert forall|k: int| 0 <= k < total.len() implies (#[trigger] total[k]).spec_hit(
                    *ray,
                ) is None by {
                    total[k].hit_valid(*ray);
                    match total[k].spec_hit(*ray) {
                        Some(j) => {
                            assert(j.t <= T_MAX_HIT);
                            assert(!stack_shapes(todo@).contains(total[k]));
                        },
                        None => {},
                    }
                }
            }
        }
        result
    }
}

/// Builds a subtree over a non-empty collection: a leaf for one shape, or
/// a median split along the longest axis of the bound centers.
fn build<T: BoundedShape + Copy>(shapes: Vec<T>) -> (r: Node<T>)
    requires
        shapes@.len() >= 1,
        forall|i: int| 0 <= i < shapes@.len() ==> (#[trigger] shapes@[i]).shape_wf(),
    ensures
        r.inv(),
        r.shapes().to_multiset() == shapes@.to_multiset(),
    decreases shapes@.len(),
{
    broadcast use vstd::seq_lib::group_to_multiset_ensures;

    if shapes.len() == 1 {
        let shape = shapes[0];
        let b = shape.bound();
        let r = Node::Leaf { shape };
        proof {
            assert(r.shapes() =~= seq![shapes@[0]]);
            assert(shapes@ =~= seq![shapes@[0]]);
            assert(r.shapes().to_multiset() =~= shapes@.to_multiset());
        }
        r
    } else {
        let ghost orig = shapes@;
        let (left_shapes, right_shapes, axis) = partition(shapes);
        let ghost l = left_shapes@;
        let ghost rs = right_shapes@;
        let left = Box::new(build(left_shapes));
        let right = Box::new(build(right_shapes));
        let ghost lsh = left.shapes();
        let ghost rsh = right.shapes();
        let bound = left.node_bound().union(&right.node_bound());
        let r = Node::Interior { left, right, axis, bound };
        proof {
            assert(r.shapes() == lsh + rsh);
            lemma_multiset_commutative(lsh, rsh);
            lemma_multiset_commutative(l, rs);
            assert(r.shapes().to_multiset() =~= orig.to_multiset());
        }
        r
    }
}

/// Splits at least two shapes into two non-empty halves at the median of
/// their bound centers along the longest axis of the centers' box. The two
/// halves together hold exactly the given shapes.
fn partition<T: BoundedShape + Copy>(shapes: Vec<T>) -> (r: (Vec<T>, Vec<T>, usize))
    requires
        shapes@.len() >= 2,
        forall|i: int| 0 <= i < shapes@.len() ==> (#[trigger] shapes@[i]).shape_wf(),
    ensures
        r.0@.len() >= 1,
        r.1@.len() >= 1,
        r.0@.len() < shapes@.len(),
        r.1@.len() < shapes@.len(),
        r.0@.to_multiset().add(r.1@.to_multiset()) == shapes@.to_multiset(),
        forall|i: int| 0 <= i < r.0@.len() ==> (#[trigger] r.0@[i]).shape_wf(),
        forall|i: int| 0 <= i < r.1@.len() ==> (#[trigger] r.1@[i]).shape_wf(),
        r.2 < 3,
{
    broadcast use vstd::seq_lib::group_to_multiset_ensures;
    broadcast use vstd::multiset::group_multiset_axioms;

    let ghost orig = shapes@;
    // The longest axis of the box of all bound centers.
    let mut centers = BoundBox::empty();
    let mut i: usize = 0;
    while i < shapes.len()
        invariant
            i <= shapes@.len(),
            shapes@.len() >= 2,
            forall|k: int| 0 <= k < shapes@.len() ==> (#[trigger] shapes@[k]).shape_wf(),
            i == 0 ==> centers.is_empty(),
            i >= 1 ==> centers.wf(),
        decreases shapes@.len() - i,
    {
        let c = shapes[i].bound().center();
        let pb = BoundBox::of_point(c);
        let ghost old_centers = centers;
        centers = centers.union(&pb);
        proof {
            assert(c.radius_vector.bounded(0x4000_0000));
            assert(pb.p_min == c && pb.p_max == c);
            assert(centers == crate::bound_box::spec_union(old_centers, pb));
            assert(centers.p_min.radius_vector.bounded(0x4000_0000));
            assert(centers.p_max.radius_vector.bounded(0x4000_0000));
            assert(centers.p_min.radius_vector.x <= centers.p_max.radius_vector.x);
            assert(centers.wf());
        }
        i = i + 1;
    }
    let axis = centers.longext_axis();

    // Insertion sort by the bound center's coordinate along that axis.
    let mut sorted = shapes;
    let mut i: usize = 1;
    while i < sorted.len()
        invariant
            sorted@.len() == orig.len(),
            sorted@.to_multiset() == orig.to_multiset(),
            forall|k: int| 0 <= k < sorted@.len() ==> (#[trigger] sorted@[k]).shape_wf(),
            axis < 3,
        decreases sorted@.len() - i,
    {
        let x = sorted[i];
        let key_x = x.bound().center().coord(axis);
        let mut j: usize = i;
        while j > 0
            invariant
                j <= i < sorted@.len(),
                forall|k: int| 0 <= k < sorted@.len() ==> (#[trigger] sorted@[k]).shape_wf(),
                axis < 3,
            decreases j,
        {
            let key_prev = sorted[j - 1].bound().center().coord(axis);
            if key_prev > key_x {
                j = j - 1;
            } else {
                break ;
            }
        }
        let ghost before = sorted@;
        let moved = sorted.remove(i);
        sorted.insert(j, moved);
        proof {
            let s1 = before.remove(i as int);
            before.to_multiset_ensures();
            s1.to_multiset_ensures();
            vstd::seq_lib::to_multiset_insert(s1, j as int, moved);
            assert(s1.to_multiset() =~= before.to_multiset().remove(moved));
            assert(sorted@ == s1.insert(j as int, moved));
            assert(sorted@.to_multiset() =~= s1.to_multiset().insert(moved));
            assert(before.contains(before[i as int]));
            assert(before.to_multiset().count(moved) > 0);
            assert(before.to_multiset().remove(moved).insert(moved) =~= before.to_multiset());
            assert(sorted@.to_multiset() =~= orig.to_multiset());
            assert forall|k: int| 0 <= k < sorted@.len() implies (#[trigger] sorted@[k]).shape_wf()
            by {
                if k < j {
                    assert(sorted@[k] == before.remove(i as int)[k]);
                } else if k == j {
                    assert(sorted@[k] == before[i as int]);
                } else {
                    assert(sorted@[k] == before.remove(i as int)[k - 1]);
                }
            }
        }
        i = i + 1;
    }

    // Median split.
    let mid = sorted.len() / 2;
    let ghost whole = sorted@;
    let right_half = sorted.split_off(mid);
    proof {
        assert(whole =~= sorted@ + right_half@);
        lemma_multiset_commutative(sorted@, right_half@);
    }
    (sorted, right_half, axis)
}

} // verus!
