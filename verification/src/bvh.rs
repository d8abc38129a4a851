//! The bounding-volume hierarchy: a binary tree of boxes over the surfaces
//! of a scene that have a box.

use vstd::prelude::*;
use crate::aabb::{int_min, AABB};
use crate::closest::{all_report_first, lemma_sweep_order_independent, same_time};
use crate::hittable::{closing_bound, sweep, HitCheckable, HitRecord, Hittable};
use crate::ray::Ray;
use crate::scalar::Scalar;
use crate::sort::Bounded;
use crate::vec3::Axis;

verus! {

/// A tree over surfaces that are kept in a list and named by their index.
///
/// `B` is the form in which a box is held for testing rays against it.
pub enum Bvh<B> {
    /// The surface at `index`, and the box around it.
    Leaf { index: usize, bounding_box: AABB },
    /// Two subtrees.
    Node(Box<BVHNode<B>>),
}

/// An inner node: two children, the box around both, and that box in the
/// form in which rays are tested against it.
pub struct BVHNode<B> {
    pub left: Bvh<B>,
    pub right: Bvh<B>,
    pub bounding_box: AABB,
    pub probe: B,
}

/// None of the items has a hit in the interval.
pub open spec fn all_miss<H: Hittable>(
    items: Seq<H>,
    ray: Ray,
    tmin: Scalar,
    tmax: Option<Scalar>,
) -> bool {
    forall|k: int| 0 <= k < items.len() ==> (#[trigger] items[k]).hit(ray, tmin, tmax) is None
}

/// No surface of `left` begins later along `axis` than one of `right`.
pub open spec fn separated(left: Seq<Bounded>, right: Seq<Bounded>, axis: Axis) -> bool {
    forall|i: int, j: int|
        0 <= i < left.len() && 0 <= j < right.len() ==> (#[trigger] left[i]).sort_key(axis) <= (
        #[trigger] right[j]).sort_key(axis)
}

/// The surfaces that the indices name.
pub open spec fn pick<H>(objects: Seq<H>, indices: Seq<usize>) -> Seq<H> {
    Seq::new(indices.len(), |k: int| objects[indices[k] as int])
}

impl<B: HitCheckable> Bvh<B> {
    /// The indices at the leaves, from left to right.
    pub open spec fn leaves(self) -> Seq<usize>
        decreases self,
    {
        match self {
            Bvh::Leaf { index, .. } => seq![index],
            Bvh::Node(node) => node.left.leaves() + node.right.leaves(),
        }
    }

    /// The surfaces at the leaves with their boxes, from left to right.
    pub open spec fn entries(self) -> Seq<Bounded>
        decreases self,
    {
        match self {
            Bvh::Leaf { index, bounding_box } => seq![Bounded { index, bounding_box }],
            Bvh::Node(node) => node.left.entries() + node.right.entries(),
        }
    }

    /// Every node holds the box around the boxes of its two children.
    pub open spec fn linked(self) -> bool
        decreases self,
    {
        match self {
            Bvh::Leaf { .. } => true,
            Bvh::Node(node) => {
                &&& node.left.linked()
                &&& node.right.linked()
                &&& node.bounding_box == AABB::spec_surrounding(
                    node.left.total_box(),
                    node.right.total_box(),
                )
            },
        }
    }

    /// Every node divides its surfaces at the middle of their order along
    /// one of the axes: the left child holds the first half, rounded down,
    /// and no surface on the left begins later along that axis than one on
    /// the right.
    pub open spec fn divided(self) -> bool
        decreases self,
    {
        match self {
            Bvh::Leaf { .. } => true,
            Bvh::Node(node) => {
                &&& node.left.divided()
                &&& node.right.divided()
                &&& node.left.entries().len() == (node.left.entries().len()
                    + node.right.entries().len()) / 2
                &&& exists|axis: Axis|
                    #[trigger] separated(node.left.entries(), node.right.entries(), axis)
            },
        }
    }

    /// Every node holds, as the form in which rays are tested against its
    /// box, what `make_probe` made of that box.
    pub open spec fn probed_by<F: Fn(AABB) -> B>(self, make_probe: F) -> bool
        decreases self,
    {
        match self {
            Bvh::Leaf { .. } => true,
            Bvh::Node(node) => {
                &&& node.left.probed_by(make_probe)
                &&& node.right.probed_by(make_probe)
                &&& make_probe.ensures((node.bounding_box,), node.probe)
            },
        }
    }

    /// The box at the root: of a leaf its own, of a node the one it holds.
    pub open spec fn total_box(self) -> AABB {
        match self {
            Bvh::Leaf { bounding_box, .. } => bounding_box,
            Bvh::Node(node) => node.bounding_box,
        }
    }

    /// Every leaf names a surface of `objects` and holds that surface's box,
    /// and every node holds the box around the boxes of its two children.
    pub open spec fn wf<H: Hittable>(self, objects: Seq<H>) -> bool {
        &&& self.linked()
        &&& forall|k: int|
            0 <= k < self.entries().len() ==> {
                let e = #[trigger] self.entries()[k];
                e.index < objects.len() && objects[e.index as int].bounds() == Some(e.bounding_box)
            }
    }

    /// What a traversal for `ray` returns.  A node whose box the ray misses
    /// answers at once; otherwise the left child is asked, then the right
    /// one for a hit closer than the left one's.  A leaf whose index names
    /// nothing has no hit.
    pub open spec fn spec_hit<H: Hittable>(
        self,
        objects: Seq<H>,
        ray: Ray,
        tmin: Scalar,
        tmax: Option<Scalar>,
    ) -> Option<HitRecord>
        decreases self,
    {
        match self {
            Bvh::Leaf { index, .. } => if index < objects.len() {
                objects[index as int].hit(ray, tmin, tmax)
            } else {
                None
            },
            Bvh::Node(node) => node.spec_hit(objects, ray, tmin, tmax),
        }
    }

    /// No box of the tree hides a hit from `ray`: whenever the test of a
    /// node's box fails for an interval, no surface below that node has a
    /// hit in the interval.
    pub open spec fn probes_sound<H: Hittable>(self, objects: Seq<H>, ray: Ray, tmin: Scalar) -> bool
        decreases self,
    {
        match self {
            Bvh::Leaf { .. } => true,
            Bvh::Node(node) => {
                &&& forall|tmax: Option<Scalar>|
                    !(#[trigger] node.probe.check_hit(ray, tmin, tmax)) ==> all_miss(
                        pick(objects, self.leaves()),
                        ray,
                        tmin,
                        tmax,
                    )
                &&& node.left.probes_sound(objects, ray, tmin)
                &&& node.right.probes_sound(objects, ray, tmin)
            },
        }
    }

    /// The box at the root.
    pub fn bounding_box(&self) -> (r: AABB)
        ensures
            r == self.total_box(),
    {
        match self {
            Bvh::Leaf { bounding_box, .. } => *bounding_box,
            Bvh::Node(node) => node.bounding_box,
        }
    }

    /// The closest hit of `ray` among the surfaces at the leaves.
    pub fn is_hit_by<H: Hittable>(
        &self,
        objects: &Vec<H>,
        ray: Ray,
        tmin: Scalar,
        tmax: Option<Scalar>,
    ) -> (r: Option<HitRecord>)
        ensures
            r == self.spec_hit(objects@, ray, tmin, tmax),
        decreases self,
    {
        match self {
            Bvh::Leaf { index, .. } => {
                if *index < objects.len() {
                    objects[*index].is_hit_by(ray, tmin, tmax)
                } else {
                    None
                }
            },
            Bvh::Node(node) => node.is_hit_by(objects, ray, tmin, tmax),
        }
    }
}

impl<B: HitCheckable> BVHNode<B> {
    /// What a traversal from this node returns.  A node whose box the ray
    /// misses answers at once; otherwise the left child is asked, then the
    /// right one for a hit closer than the left one's.
    pub open spec fn spec_hit<H: Hittable>(
        self,
        objects: Seq<H>,
        ray: Ray,
        tmin: Scalar,
        tmax: Option<Scalar>,
    ) -> Option<HitRecord>
        decreases self,
    {
        if !self.probe.check_hit(ray, tmin, tmax) {
            None
        } else {
            match self.left.spec_hit(objects, ray, tmin, tmax) {
                Some(hit_left) => match self.right.spec_hit(objects, ray, tmin, Some(hit_left.t)) {
                    Some(hit_right) => Some(hit_right),
                    None => Some(hit_left),
                },
                None => self.right.spec_hit(objects, ray, tmin, tmax),
            }
        }
    }

    /// The closest hit of `ray` among the surfaces below this node.
    pub fn is_hit_by<H: Hittable>(
        &self,
        objects: &Vec<H>,
        ray: Ray,
        tmin: Scalar,
        tmax: Option<Scalar>,
    ) -> (r: Option<HitRecord>)
        ensures
            r == self.spec_hit(objects@, ray, tmin, tmax),
        decreases self,
    {
        if !self.probe.check_hit_by(ray, tmin, tmax) {
            return None;
        }
        if let Some(hit_left) = self.left.is_hit_by(objects, ray, tmin, tmax) {
            if let Some(hit_right) = self.right.is_hit_by(objects, ray, tmin, Some(hit_left.t)) {
                Some(hit_right)
            } else {
                Some(hit_left)
            }
        } else {
            self.right.is_hit_by(objects, ray, tmin, tmax)
        }
    }
}

/// What a search holds after one more answer: the answer if there is one,
/// else what it held before.
pub open spec fn or_found(answer: Option<HitRecord>, found: Option<HitRecord>) -> Option<
    HitRecord,
> {
    match answer {
        Some(record) => Some(record),
        None => found,
    }
}

/// Searching a list in two parts is searching the second part with what the
/// first part found.
pub proof fn lemma_sweep_concat<H: Hittable>(
    a: Seq<H>,
    b: Seq<H>,
    found: Option<HitRecord>,
    ray: Ray,
    tmin: Scalar,
    tmax: Option<Scalar>,
)
    ensures
        sweep(a + b, found, ray, tmin, tmax) == sweep(
            b,
            sweep(a, found, ray, tmin, tmax),
            ray,
            tmin,
            tmax,
        ),
    decreases b.len(),
{
    if b.len() == 0 {
        assert(a + b =~= a);
    } else {
        assert((a + b).drop_last() =~= a + b.drop_last());
        assert((a + b).last() == b.last());
        lemma_sweep_concat(a, b.drop_last(), found, ray, tmin, tmax);
    }
}

/// A search among items that all miss the interval left by what was found
/// before keeps what was found before.
pub proof fn lemma_sweep_all_miss<H: Hittable>(
    items: Seq<H>,
    found: Option<HitRecord>,
    ray: Ray,
    tmin: Scalar,
    tmax: Option<Scalar>,
)
    requires
        all_miss(items, ray, tmin, closing_bound(found, tmax)),
    ensures
        sweep(items, found, ray, tmin, tmax) == found,
    decreases items.len(),
{
    if items.len() > 0 {
        let front = items.drop_last();
        assert forall|k: int| 0 <= k < front.len() implies (#[trigger] front[k]).hit(
            ray,
            tmin,
            closing_bound(found, tmax),
        ) is None by {
            assert(front[k] == items[k]);
        }
        lemma_sweep_all_miss(front, found, ray, tmin, tmax);
        assert(items[items.len() - 1].hit(ray, tmin, closing_bound(found, tmax)) is None);
    }
}

/// `pick` follows concatenation.
pub proof fn lemma_pick_concat<H>(objects: Seq<H>, a: Seq<usize>, b: Seq<usize>)
    ensures
        pick(objects, a + b) =~= pick(objects, a) + pick(objects, b),
{
}

impl<B: HitCheckable> Bvh<B> {
    /// Every index at a leaf names a surface of a list of length `n`.
    pub open spec fn indices_below(self, n: nat) -> bool {
        forall|k: int| 0 <= k < self.leaves().len() ==> (#[trigger] self.leaves()[k]) < n
    }

    /// A traversal is a search of the leaves in order: where no box hides a
    /// hit, the tree returns for the interval that `found` leaves what the
    /// list search, started with `found`, adds to it.
    pub proof fn lemma_traversal_is_sweep<H: Hittable>(
        self,
        objects: Seq<H>,
        found: Option<HitRecord>,
        ray: Ray,
        tmin: Scalar,
        tmax: Option<Scalar>,
    )
        requires
            self.indices_below(objects.len()),
            self.probes_sound(objects, ray, tmin),
        ensures
            sweep(pick(objects, self.leaves()), found, ray, tmin, tmax) == or_found(
                self.spec_hit(objects, ray, tmin, closing_bound(found, tmax)),
                found,
            ),
        decreases self,
    {
        let items = pick(objects, self.leaves());
        let limit = closing_bound(found, tmax);
        match self {
            Bvh::Leaf { index, .. } => {
                assert(self.leaves()[0] == index);
                assert(items.drop_last() =~= Seq::<H>::empty());
                assert(items.last() == objects[index as int]);
                assert(sweep(items.drop_last(), found, ray, tmin, tmax) == found);
            },
            Bvh::Node(node) => {
                let left_items = pick(objects, node.left.leaves());
                let right_items = pick(objects, node.right.leaves());
                lemma_pick_concat(objects, node.left.leaves(), node.right.leaves());
                assert(items =~= left_items + right_items);
                if !node.probe.check_hit(ray, tmin, limit) {
                    lemma_sweep_all_miss(items, found, ray, tmin, tmax);
                } else {
                    assert forall|k: int| 0 <= k < node.left.leaves().len() implies (
                    #[trigger] node.left.leaves()[k]) < objects.len() by {
                        assert(self.leaves()[k] == node.left.leaves()[k]);
                    }
                    assert forall|k: int| 0 <= k < node.right.leaves().len() implies (
                    #[trigger] node.right.leaves()[k]) < objects.len() by {
                        assert(self.leaves()[node.left.leaves().len() + k]
                            == node.right.leaves()[k]);
                    }
                    node.left.lemma_traversal_is_sweep(objects, found, ray, tmin, tmax);
                    let after_left = sweep(left_items, found, ray, tmin, tmax);
                    node.right.lemma_traversal_is_sweep(objects, after_left, ray, tmin, tmax);
                    lemma_sweep_concat(left_items, right_items, found, ray, tmin, tmax);
                }
            },
        }
    }

    /// The hierarchy agrees with the plain list.  Let the leaves of the tree
    /// name the same surfaces as `items` holds, in any order, let each of
    /// these report its first intersection, and let no box of the tree hide
    /// a hit.  Then the traversal and the search through `items` find hits
    /// at the same distance, or both find none.
    pub proof fn lemma_agrees_with_list<H: Hittable>(
        self,
        objects: Seq<H>,
        items: Seq<H>,
        ray: Ray,
        tmin: Scalar,
        tmax: Option<Scalar>,
    )
        requires
            self.indices_below(objects.len()),
            self.probes_sound(objects, ray, tmin),
            tmax matches Some(limit) ==> !limit.nan(),
            all_report_first(items, ray, tmin, tmax),
            forall|i: int| 0 <= i < items.len() ==> pick(objects, self.leaves()).contains(#[trigger] items[i]),
            forall|k: int|
                0 <= k < self.leaves().len() ==> items.contains(
                    #[trigger] pick(objects, self.leaves())[k],
                ),
        ensures
            same_time(
                self.spec_hit(objects, ray, tmin, tmax),
                sweep(items, None, ray, tmin, tmax),
            ),
    {
        self.lemma_traversal_is_sweep(objects, None, ray, tmin, tmax);
        lemma_sweep_order_independent(items, pick(objects, self.leaves()), ray, tmin, tmax);
    }
}

/// One of the surfaces of the list has the box `b`.
pub open spec fn holds_box(s: Seq<Bounded>, b: AABB) -> bool {
    exists|j: int| 0 <= j < s.len() && (#[trigger] s[j]).bounding_box == b
}

/// Every box of the list occurs in the other list.
pub open spec fn boxes_among(a: Seq<Bounded>, b: Seq<Bounded>) -> bool {
    forall|i: int| 0 <= i < a.len() ==> holds_box(b, (#[trigger] a[i]).bounding_box)
}

impl<B: HitCheckable> Bvh<B> {
    /// A tree has at least one leaf, and its leaves are the indices of its
    /// entries.
    pub proof fn lemma_leaves_of_entries(self)
        ensures
            self.entries().len() > 0,
            self.leaves().len() == self.entries().len(),
            forall|k: int|
                0 <= k < self.entries().len() ==> (#[trigger] self.leaves()[k])
                    == self.entries()[k].index,
        decreases self,
    {
        match self {
            Bvh::Leaf { .. } => {},
            Bvh::Node(node) => {
                node.left.lemma_leaves_of_entries();
                node.right.lemma_leaves_of_entries();
            },
        }
    }

    /// The bound of the root's box on one side is the bound of some
    /// leaf's box.
    pub open spec fn bound_attained(self, side: int) -> bool {
        exists|k: int|
            0 <= k < self.entries().len() && self.total_box().extent_key(side)
                == #[trigger] self.entries()[k].bounding_box.extent_key(side)
    }

    /// The box at the root is the smallest box around the boxes at the
    /// leaves: it is well formed, each of its six bounds is at least as wide
    /// as that of every leaf, and is the bound of one of them.
    pub proof fn lemma_total_box_is_hull(self)
        requires
            self.linked(),
            forall|k: int|
                0 <= k < self.entries().len() ==> (#[trigger] self.entries()[k]).bounding_box.wf(),
        ensures
            self.total_box().wf(),
            forall|side: int, k: int|
                0 <= side < 6 && 0 <= k < self.entries().len() ==> self.total_box().extent_key(side)
                    <= #[trigger] self.entries()[k].bounding_box.extent_key(side),
            forall|side: int| 0 <= side < 6 ==> #[trigger] self.bound_attained(side),
        decreases self,
    {
        match self {
            Bvh::Leaf { index, bounding_box } => {
                assert(self.entries()[0].bounding_box == bounding_box);
                assert forall|side: int| 0 <= side < 6 implies #[trigger] self.bound_attained(
                    side,
                ) by {
                    assert(self.total_box().extent_key(side)
                        == self.entries()[0].bounding_box.extent_key(side));
                }
            },
            Bvh::Node(node) => {
                let l = node.left;
                let r = node.right;
                let n = l.entries().len() as int;
                assert forall|k: int| 0 <= k < l.entries().len() implies (
                #[trigger] l.entries()[k]).bounding_box.wf() by {
                    assert(self.entries()[k] == l.entries()[k]);
                }
                assert forall|k: int| 0 <= k < r.entries().len() implies (
                #[trigger] r.entries()[k]).bounding_box.wf() by {
                    assert(self.entries()[n + k] == r.entries()[k]);
                }
                l.lemma_total_box_is_hull();
                r.lemma_total_box_is_hull();
                AABB::lemma_surrounding(l.total_box(), r.total_box());
                AABB::lemma_surrounding_extent(l.total_box(), r.total_box());
                assert forall|side: int, k: int|
                    0 <= side < 6 && 0 <= k < self.entries().len() implies self.total_box().extent_key(
                    side,
                ) <= #[trigger] self.entries()[k].bounding_box.extent_key(side) by {
                    assert(self.total_box().extent_key(side) == int_min(
                        l.total_box().extent_key(side),
                        r.total_box().extent_key(side),
                    ));
                    if k < n {
                        assert(self.entries()[k] == l.entries()[k]);
                    } else {
                        assert(self.entries()[k] == r.entries()[k - n]);
                    }
                }
                assert forall|side: int| 0 <= side < 6 implies #[trigger] self.bound_attained(
                    side,
                ) by {
                    assert(self.total_box().extent_key(side) == int_min(
                        l.total_box().extent_key(side),
                        r.total_box().extent_key(side),
                    ));
                    if l.total_box().extent_key(side) <= r.total_box().extent_key(side) {
                        assert(l.bound_attained(side));
                        let k = choose|k: int|
                            0 <= k < l.entries().len() && l.total_box().extent_key(side)
                                == #[trigger] l.entries()[k].bounding_box.extent_key(side);
                        assert(self.entries()[k] == l.entries()[k]);
                        assert(self.total_box().extent_key(side)
                            == self.entries()[k].bounding_box.extent_key(side));
                    } else {
                        assert(r.bound_attained(side));
                        let k = choose|k: int|
                            0 <= k < r.entries().len() && r.total_box().extent_key(side)
                                == #[trigger] r.entries()[k].bounding_box.extent_key(side);
                        assert(self.entries()[n + k] == r.entries()[k]);
                        assert(self.total_box().extent_key(side)
                            == self.entries()[n + k].bounding_box.extent_key(side));
                    }
                }
            },
        }
    }

    /// The box of the whole tree depends on the boxes at the leaves alone,
    /// not on their order nor on how they were divided.  Two trees over the
    /// same well-formed boxes have boxes of the same extent at their roots.
    pub proof fn lemma_total_box_independent(self, other: Bvh<B>)
        requires
            self.linked(),
            other.linked(),
            forall|k: int|
                0 <= k < self.entries().len() ==> (#[trigger] self.entries()[k]).bounding_box.wf(),
            boxes_among(self.entries(), other.entries()),
            boxes_among(other.entries(), self.entries()),
        ensures
            self.total_box().same_extent(other.total_box()),
    {
        assert forall|k: int| 0 <= k < other.entries().len() implies (
        #[trigger] other.entries()[k]).bounding_box.wf() by {
            let wanted = other.entries()[k].bounding_box;
            assert(holds_box(self.entries(), wanted));
            let j = choose|j: int|
                0 <= j < self.entries().len() && (#[trigger] self.entries()[j]).bounding_box
                    == wanted;
            assert(self.entries()[j].bounding_box.wf());
        }
        self.lemma_total_box_is_hull();
        other.lemma_total_box_is_hull();
        let a = self.total_box();
        let b = other.total_box();
        assert forall|side: int| 0 <= side < 6 implies a.extent_key(side) == b.extent_key(
            side,
        ) by {
            assert(self.bound_attained(side));
            assert(other.bound_attained(side));
            let ka = choose|k: int|
                0 <= k < self.entries().len() && a.extent_key(side)
                    == #[trigger] self.entries()[k].bounding_box.extent_key(side);
            let mine = self.entries()[ka].bounding_box;
            assert(holds_box(other.entries(), mine));
            let ja = choose|j: int|
                0 <= j < other.entries().len() && (#[trigger] other.entries()[j]).bounding_box
                    == mine;
            assert(b.extent_key(side) <= other.entries()[ja].bounding_box.extent_key(side));
            let kb = choose|k: int|
                0 <= k < other.entries().len() && b.extent_key(side)
                    == #[trigger] other.entries()[k].bounding_box.extent_key(side);
            let theirs = other.entries()[kb].bounding_box;
            assert(holds_box(self.entries(), theirs));
            let jb = choose|j: int|
                0 <= j < self.entries().len() && (#[trigger] self.entries()[j]).bounding_box
                    == theirs;
            assert(a.extent_key(side) <= self.entries()[jb].bounding_box.extent_key(side));
        }
        AABB::lemma_same_extent(a, b);
    }
}

} // verus!
