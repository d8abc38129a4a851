//! Building the hierarchy for a scene.

use vstd::prelude::*;
use crate::aabb::AABB;
use crate::bvh::{
    boxes_among, holds_box, lemma_sweep_concat, or_found, pick, separated, Bvh, BVHNode,
};
use crate::closest::{
    all_report_first, cut_off, is_closest, lemma_sweep_cut_off, lemma_sweep_finds_closest,
    lemma_sweep_order_independent, reports_first, same_time, within_bound,
};
use crate::hittable::{closing_bound, sweep, sweep_step, HitCheckable, HitRecord, Hittable};
use crate::ray::Ray;
use crate::scalar::Scalar;
use crate::sort::{all_boxes_wf, sort_by_axis, Bounded};
use crate::vec3::Axis;

verus! {

/// `rand::rngs::ThreadRng`, the handle to a thread's random number
/// generator: carried from where it is made to where it is drawn from.
#[verifier::external_type_specification]
#[verifier::external_body]
pub struct ExThreadRng(rand::rngs::ThreadRng);

/// `rand::thread_rng`: a handle to the random number generator of the
/// calling thread.  Nothing is claimed of the handle.  The generator is
/// seeded by the system on first use and panics where the system has no
/// entropy to give.
#[verifier::external_body]
fn thread_rng() -> rand::rngs::ThreadRng {
    rand::thread_rng()
}

/// `rand::Rng::gen_range` on integers: some number that is at least `low`
/// and less than `high`.  The generator panics where `low >= high`.
#[verifier::external_body]
fn gen_range(rng: &mut rand::rngs::ThreadRng, low: u32, high: u32) -> (r: u32)
    requires
        low < high,
    ensures
        low <= r < high,
{
    rand::Rng::gen_range(rng, low, high)
}

/// The axis that a draw from `0..3` stands for.
pub fn axis_of_draw(draw: u32) -> (r: Axis)
    requires
        draw < 3,
    ensures
        r == (if draw == 0 {
            Axis::X
        } else if draw == 1 {
            Axis::Y
        } else {
            Axis::Z
        }),
{
    if draw == 0 {
        Axis::X
    } else if draw == 1 {
        Axis::Y
    } else {
        Axis::Z
    }
}

impl<B: HitCheckable> BVHNode<B> {
    /// A node over two subtrees.  Its box is the one around the boxes of
    /// the two; `make_probe` turns it into the form that rays are tested
    /// against.
    pub fn new<F: Fn(AABB) -> B>(left: Bvh<B>, right: Bvh<B>, make_probe: &F) -> (r: BVHNode<B>)
        requires
            forall|b: AABB| #[trigger] make_probe.requires((b,)),
        ensures
            r.left == left,
            r.right == right,
            r.bounding_box == AABB::spec_surrounding(left.total_box(), right.total_box()),
            make_probe.ensures((r.bounding_box,), r.probe),
    {
        let bounding_box = AABB::surrounding(left.bounding_box(), right.bounding_box());
        let probe = make_probe(bounding_box);
        BVHNode { left, right, bounding_box, probe }
    }
}

/// The tree over a list of boxed surfaces that is not empty.
///
/// A single surface is a leaf.  Otherwise the surfaces are ordered along a
/// random axis by where their boxes begin and divided at the middle, and
/// each half becomes a subtree.
fn build_bvh_raw<B: HitCheckable, F: Fn(AABB) -> B>(
    entries: Vec<Bounded>,
    rng: &mut rand::rngs::ThreadRng,
    make_probe: &F,
) -> (tree: Bvh<B>)
    requires
        entries@.len() > 0,
        all_boxes_wf(entries@),
        forall|b: AABB| #[trigger] make_probe.requires((b,)),
    ensures
        tree.linked(),
        tree.divided(),
        tree.probed_by(*make_probe),
        tree.entries().to_multiset() =~= entries@.to_multiset(),
    decreases entries@.len(),
{
    if entries.len() == 1 {
        let only = entries[0];
        assert(entries@ =~= seq![only]);
        return Bvh::Leaf { index: only.index, bounding_box: only.bounding_box };
    }
    let draw = gen_range(rng, 0, 3);
    let axis = axis_of_draw(draw);
    let mut sorted = sort_by_axis(entries, axis);
    let ghost whole = sorted@;
    let mid = sorted.len() / 2;
    let right_part = sorted.split_off(mid);
    proof {
        assert(whole =~= sorted@ + right_part@);
        vstd::seq_lib::lemma_multiset_commutative(sorted@, right_part@);
        assert forall|i: int| 0 <= i < sorted@.len() implies (
        #[trigger] sorted@[i]).bounding_box.wf() by {
            assert(sorted@[i] == whole[i]);
        }
        assert forall|i: int| 0 <= i < right_part@.len() implies (
        #[trigger] right_part@[i]).bounding_box.wf() by {
            assert(right_part@[i] == whole[mid + i]);
        }
    }
    let ghost left_entries = sorted@;
    let ghost right_entries = right_part@;
    let left = build_bvh_raw(sorted, rng, make_probe);
    let right = build_bvh_raw(right_part, rng, make_probe);
    let node = BVHNode::new(left, right, make_probe);
    let tree = Bvh::Node(Box::new(node));
    proof {
        broadcast use vstd::seq_lib::group_to_multiset_ensures;

        vstd::seq_lib::lemma_multiset_commutative(left.entries(), right.entries());
        assert(tree.entries() == left.entries() + right.entries());
        left.entries().to_multiset_ensures();
        left_entries.to_multiset_ensures();
        right.entries().to_multiset_ensures();
        right_entries.to_multiset_ensures();
        assert(left.entries().to_multiset() == left_entries.to_multiset());
        assert(right.entries().to_multiset() == right_entries.to_multiset());
        assert(left.entries().len() == left_entries.len());
        assert(right.entries().len() == right_entries.len());
        assert forall|i: int, j: int|
            0 <= i < left.entries().len() && 0 <= j < right.entries().len() implies (
        #[trigger] left.entries()[i]).sort_key(axis) <= (#[trigger] right.entries()[j]).sort_key(
            axis,
        ) by {
            let a = left.entries()[i];
            let b = right.entries()[j];
            assert(left.entries().contains(a));
            assert(left.entries().to_multiset().count(a) > 0);
            assert(left_entries.contains(a));
            let ia = choose|k: int| 0 <= k < left_entries.len() && left_entries[k] == a;
            assert(right.entries().contains(b));
            assert(right.entries().to_multiset().count(b) > 0);
            assert(right_entries.contains(b));
            let ib = choose|k: int| 0 <= k < right_entries.len() && right_entries[k] == b;
            assert(whole[ia] == a);
            assert(whole[mid + ib] == b);
        }
        assert(separated(left.entries(), right.entries(), axis));
    }
    tree
}

/// The surfaces among the first `n` of a list that have a box, with their
/// indices, in the order of the list.
pub open spec fn bounded_entries<H: Hittable>(objects: Seq<H>, n: int) -> Seq<Bounded>
    decreases n,
{
    if n <= 0 {
        Seq::empty()
    } else {
        let before = bounded_entries(objects, n - 1);
        match objects[n - 1].bounds() {
            Some(bounding_box) => before.push(Bounded { index: (n - 1) as usize, bounding_box }),
            None => before,
        }
    }
}

/// The indices of the surfaces among the first `n` of a list that have no
/// box, in ascending order.
pub open spec fn unbounded_indices<H: Hittable>(objects: Seq<H>, n: int) -> Seq<usize>
    decreases n,
{
    if n <= 0 {
        Seq::empty()
    } else {
        let before = unbounded_indices(objects, n - 1);
        match objects[n - 1].bounds() {
            Some(_) => before,
            None => before.push((n - 1) as usize),
        }
    }
}

/// A scene prepared for rendering: the surfaces as they were given, the
/// indices of those without a box, and the tree over the others.
pub struct Scene<H, B> {
    pub objects: Vec<H>,
    pub unbounded: Vec<usize>,
    pub root: Bvh<B>,
}

/// Prepares a scene: the surfaces that have a box go into a tree, the others
/// are kept aside.
///
/// At least one surface must have a box, and every box must be well
/// formed.
pub fn build_bvh<H: Hittable, B: HitCheckable, F: Fn(AABB) -> B>(
    objects: Vec<H>,
    make_probe: &F,
) -> (scene: Scene<H, B>)
    requires
        bounded_entries(objects@, objects@.len() as int).len() > 0,
        all_boxes_wf(bounded_entries(objects@, objects@.len() as int)),
        forall|b: AABB| #[trigger] make_probe.requires((b,)),
    ensures
        scene.objects@ == objects@,
        scene.prepared(),
        scene.root.probed_by(*make_probe),
{
    let mut rng = thread_rng();
    let mut bb_objects: Vec<Bounded> = Vec::new();
    let mut inf_objects: Vec<usize> = Vec::new();
    let mut i: usize = 0;
    while i < objects.len()
        invariant
            0 <= i <= objects@.len(),
            bb_objects@ == bounded_entries(objects@, i as int),
            inf_objects@ == unbounded_indices(objects@, i as int),
        decreases objects@.len() - i,
    {
        match objects[i].bounding_box() {
            Some(bounding_box) => {
                bb_objects.push(Bounded { index: i, bounding_box });
            },
            None => {
                inf_objects.push(i);
            },
        }
        i = i + 1;
    }
    let root = build_bvh_raw(bb_objects, &mut rng, make_probe);
    assert(objects@.len() <= usize::MAX) by {
        assert(objects.len() == objects@.len());
    }
    Scene { objects, unbounded: inf_objects, root }
}

/// The search through the surfaces that `indices` name, in that order; an
/// index that names nothing is passed over.
pub open spec fn sweep_named<H: Hittable>(
    objects: Seq<H>,
    indices: Seq<usize>,
    found: Option<HitRecord>,
    ray: Ray,
    tmin: Scalar,
    tmax: Option<Scalar>,
) -> Option<HitRecord>
    decreases indices.len(),
{
    if indices.len() == 0 {
        found
    } else {
        let before = sweep_named(objects, indices.drop_last(), found, ray, tmin, tmax);
        if indices.last() < objects.len() {
            sweep_step(objects[indices.last() as int], before, ray, tmin, tmax)
        } else {
            before
        }
    }
}

/// Where every index names a surface, the search by indices is the search
/// through the surfaces named.
pub proof fn lemma_sweep_named<H: Hittable>(
    objects: Seq<H>,
    indices: Seq<usize>,
    found: Option<HitRecord>,
    ray: Ray,
    tmin: Scalar,
    tmax: Option<Scalar>,
)
    requires
        forall|k: int| 0 <= k < indices.len() ==> (#[trigger] indices[k]) < objects.len(),
    ensures
        sweep_named(objects, indices, found, ray, tmin, tmax) == sweep(
            pick(objects, indices),
            found,
            ray,
            tmin,
            tmax,
        ),
    decreases indices.len(),
{
    if indices.len() > 0 {
        let front = indices.drop_last();
        assert forall|k: int| 0 <= k < front.len() implies (#[trigger] front[k]) < objects.len() by {
            assert(front[k] == indices[k]);
        }
        lemma_sweep_named(objects, front, found, ray, tmin, tmax);
        assert(pick(objects, indices).drop_last() =~= pick(objects, front));
        assert(indices[indices.len() - 1] < objects.len());
        assert(pick(objects, indices).last() == objects[indices.last() as int]);
    }
}

/// What the division of a list into surfaces with and without a box holds:
/// each surface of the first `n` is in exactly the part that it belongs to,
/// under its own index.
pub proof fn lemma_division<H: Hittable>(objects: Seq<H>, n: int)
    requires
        0 <= n <= objects.len(),
        n <= usize::MAX,
    ensures
        forall|k: int|
            0 <= k < unbounded_indices(objects, n).len() ==> {
                let i = #[trigger] unbounded_indices(objects, n)[k];
                i < n && objects[i as int].bounds() is None
            },
        forall|k: int|
            0 <= k < bounded_entries(objects, n).len() ==> {
                let e = #[trigger] bounded_entries(objects, n)[k];
                e.index < n && objects[e.index as int].bounds() == Some(e.bounding_box)
            },
        forall|i: int|
            0 <= i < n && (#[trigger] objects[i]).bounds() is None ==> unbounded_indices(
                objects,
                n,
            ).contains(i as usize),
        forall|i: int|
            0 <= i < n && (#[trigger] objects[i]).bounds() is Some ==> bounded_entries(
                objects,
                n,
            ).contains(Bounded { index: i as usize, bounding_box: objects[i].bounds()->0 }),
    decreases n,
{
    if n > 0 {
        lemma_division(objects, n - 1);
        let ub = unbounded_indices(objects, n - 1);
        let be = bounded_entries(objects, n - 1);
        let ub2 = unbounded_indices(objects, n);
        let be2 = bounded_entries(objects, n);
        match objects[n - 1].bounds() {
            Some(bounding_box) => {
                let e = Bounded { index: (n - 1) as usize, bounding_box };
                assert(be2 == be.push(e));
                assert(ub2 == ub);
                assert(be2[be.len() as int] == e);
                assert forall|i: int|
                    0 <= i < n && (#[trigger] objects[i]).bounds() is Some implies be2.contains(
                    Bounded { index: i as usize, bounding_box: objects[i].bounds()->0 },
                ) by {
                    if i < n - 1 {
                        let old_e = Bounded {
                            index: i as usize,
                            bounding_box: objects[i].bounds()->0,
                        };
                        assert(be.contains(old_e));
                        let k = choose|k: int| 0 <= k < be.len() && be[k] == old_e;
                        assert(be2[k] == old_e);
                    }
                }
            },
            None => {
                assert(ub2 == ub.push((n - 1) as usize));
                assert(be2 == be);
                assert(ub2[ub.len() as int] == (n - 1) as usize);
                assert forall|i: int|
                    0 <= i < n && (#[trigger] objects[i]).bounds() is None implies ub2.contains(
                    i as usize,
                ) by {
                    if i < n - 1 {
                        assert(ub.contains(i as usize));
                        let k = choose|k: int| 0 <= k < ub.len() && ub[k] == i as usize;
                        assert(ub2[k] == i as usize);
                    }
                }
            },
        }
    }
}

impl<H: Hittable, B: HitCheckable> Scene<H, B> {
    /// The scene is as `build_bvh` leaves it: the surfaces without a box are
    /// listed in ascending order, and the tree is over exactly the others,
    /// each once, divided at the middle at every node.
    pub open spec fn prepared(self) -> bool {
        &&& self.objects@.len() <= usize::MAX
        &&& self.unbounded@ == unbounded_indices(self.objects@, self.objects@.len() as int)
        &&& self.root.linked()
        &&& self.root.divided()
        &&& self.root.entries().to_multiset() =~= bounded_entries(
            self.objects@,
            self.objects@.len() as int,
        ).to_multiset()
    }

    /// In a prepared scene the tree is well formed over the surfaces, and
    /// every index kept names a surface.
    pub proof fn lemma_prepared(self)
        requires
            self.prepared(),
        ensures
            self.root.wf(self.objects@),
            self.root.indices_below(self.objects@.len()),
            forall|k: int|
                0 <= k < self.unbounded@.len() ==> (#[trigger] self.unbounded@[k])
                    < self.objects@.len(),
    {
        broadcast use vstd::seq_lib::group_to_multiset_ensures;

        let objects = self.objects@;
        let n = objects.len() as int;
        lemma_division(objects, n);
        self.root.lemma_leaves_of_entries();
        let given = bounded_entries(objects, n);
        assert forall|k: int| 0 <= k < self.root.entries().len() implies {
            let e = #[trigger] self.root.entries()[k];
            e.index < objects.len() && objects[e.index as int].bounds() == Some(e.bounding_box)
        } by {
            let e = self.root.entries()[k];
            assert(self.root.entries().contains(e));
            assert(self.root.entries().to_multiset().count(e) > 0);
            assert(given.to_multiset().count(e) > 0);
            assert(given.contains(e));
            let j = choose|j: int| 0 <= j < given.len() && given[j] == e;
            assert(given[j].index < n);
        }
        assert forall|k: int| 0 <= k < self.root.leaves().len() implies (
        #[trigger] self.root.leaves()[k]) < objects.len() by {
            assert(self.root.leaves()[k] == self.root.entries()[k].index);
        }
    }

    /// The surfaces of the scene that have a box, with their boxes.
    pub open spec fn bounded(self) -> Seq<Bounded> {
        bounded_entries(self.objects@, self.objects@.len() as int)
    }

    /// Preparing the same surfaces again gives a tree with the same box,
    /// whatever the order of the surfaces and whatever axes were drawn: two
    /// prepared scenes whose boxed surfaces have the same well-formed boxes
    /// have boxes of the same extent at the roots of their trees.
    pub proof fn lemma_total_box_independent(self, other: Scene<H, B>)
        requires
            self.prepared(),
            other.prepared(),
            all_boxes_wf(self.bounded()),
            boxes_among(self.bounded(), other.bounded()),
            boxes_among(other.bounded(), self.bounded()),
        ensures
            self.root.total_box().same_extent(other.root.total_box()),
    {
        broadcast use vstd::seq_lib::group_to_multiset_ensures;

        let mine = self.root.entries();
        let theirs = other.root.entries();
        assert forall|k: int| 0 <= k < mine.len() implies (#[trigger] mine[k]).bounding_box.wf() by {
            assert(mine.to_multiset().count(mine[k]) > 0);
            assert(self.bounded().contains(mine[k]));
        }
        assert forall|i: int| 0 <= i < mine.len() implies holds_box(
            theirs,
            (#[trigger] mine[i]).bounding_box,
        ) by {
            assert(mine.to_multiset().count(mine[i]) > 0);
            assert(self.bounded().contains(mine[i]));
            let a = choose|a: int| 0 <= a < self.bounded().len() && self.bounded()[a] == mine[i];
            assert(holds_box(other.bounded(), self.bounded()[a].bounding_box));
            let b = choose|b: int|
                0 <= b < other.bounded().len() && (#[trigger] other.bounded()[b]).bounding_box
                    == mine[i].bounding_box;
            let e = other.bounded()[b];
            assert(other.bounded().to_multiset().count(e) > 0);
            assert(theirs.contains(e));
            let j = choose|j: int| 0 <= j < theirs.len() && theirs[j] == e;
            assert(theirs[j].bounding_box == mine[i].bounding_box);
        }
        assert forall|i: int| 0 <= i < theirs.len() implies holds_box(
            mine,
            (#[trigger] theirs[i]).bounding_box,
        ) by {
            assert(theirs.to_multiset().count(theirs[i]) > 0);
            assert(other.bounded().contains(theirs[i]));
            let a = choose|a: int|
                0 <= a < other.bounded().len() && other.bounded()[a] == theirs[i];
            assert(holds_box(self.bounded(), other.bounded()[a].bounding_box));
            let b = choose|b: int|
                0 <= b < self.bounded().len() && (#[trigger] self.bounded()[b]).bounding_box
                    == theirs[i].bounding_box;
            let e = self.bounded()[b];
            assert(self.bounded().to_multiset().count(e) > 0);
            assert(mine.contains(e));
            let j = choose|j: int| 0 <= j < mine.len() && mine[j] == e;
            assert(mine[j].bounding_box == theirs[i].bounding_box);
        }
        self.root.lemma_total_box_independent(other.root);
    }

    /// The surfaces of the scene in the order in which the scene asks them:
    /// those without a box, then the leaves of the tree.
    pub open spec fn asked(self) -> Seq<H> {
        pick(self.objects@, self.unbounded@) + pick(self.objects@, self.root.leaves())
    }

    /// A prepared scene whose boxes hide no hit is a search through its
    /// surfaces, each of which it asks once.
    pub proof fn lemma_is_sweep(self, ray: Ray, tmin: Scalar, tmax: Option<Scalar>)
        requires
            self.prepared(),
            self.root.probes_sound(self.objects@, ray, tmin),
        ensures
            self.hit(ray, tmin, tmax) == sweep(self.asked(), None, ray, tmin, tmax),
            forall|i: int|
                0 <= i < self.objects@.len() ==> self.asked().contains(#[trigger] self.objects@[i]),
            forall|j: int|
                0 <= j < self.asked().len() ==> self.objects@.contains(#[trigger] self.asked()[j]),
    {
        broadcast use vstd::seq_lib::group_to_multiset_ensures;

        let objects = self.objects@;
        let n = objects.len() as int;
        self.lemma_prepared();
        lemma_division(objects, n);
        self.root.lemma_leaves_of_entries();
        let first = pick(objects, self.unbounded@);
        let second = pick(objects, self.root.leaves());
        let found = sweep(first, None, ray, tmin, tmax);
        lemma_sweep_named(objects, self.unbounded@, None, ray, tmin, tmax);
        self.root.lemma_traversal_is_sweep(objects, found, ray, tmin, tmax);
        lemma_sweep_concat(first, second, None, ray, tmin, tmax);
        let all = self.asked();
        assert(all == first + second);
        assert(self.hit(ray, tmin, tmax) == sweep(all, None, ray, tmin, tmax));
        let given = bounded_entries(objects, n);
        assert forall|i: int| 0 <= i < objects.len() implies all.contains(
            #[trigger] objects[i],
        ) by {
            if objects[i].bounds() is None {
                assert(self.unbounded@.contains(i as usize));
                let k = choose|k: int|
                    0 <= k < self.unbounded@.len() && self.unbounded@[k] == i as usize;
                assert(all[k] == objects[i]);
            } else {
                let e = Bounded { index: i as usize, bounding_box: objects[i].bounds()->0 };
                assert(given.contains(e));
                assert(given.to_multiset().count(e) > 0);
                assert(self.root.entries().to_multiset().count(e) > 0);
                assert(self.root.entries().contains(e));
                let k = choose|k: int|
                    0 <= k < self.root.entries().len() && self.root.entries()[k] == e;
                assert(self.root.leaves()[k] == i as usize);
                assert(all[first.len() + k] == objects[i]);
            }
        }
        assert forall|j: int| 0 <= j < all.len() implies objects.contains(#[trigger] all[j]) by {
            if j < first.len() {
                assert(all[j] == objects[self.unbounded@[j] as int]);
            } else {
                assert(all[j] == objects[self.root.leaves()[j - first.len()] as int]);
            }
        }
    }

    /// A prepared scene finds the closest hit among the surfaces that it was
    /// given, where each of them reports its first intersection and no box
    /// of the tree hides a hit: what it finds is the hit of one of the
    /// surfaces, and none of them has an earlier one.
    pub proof fn lemma_finds_closest(self, ray: Ray, tmin: Scalar, tmax: Option<Scalar>)
        requires
            self.prepared(),
            self.root.probes_sound(self.objects@, ray, tmin),
            tmax matches Some(limit) ==> !limit.nan(),
            all_report_first(self.objects@, ray, tmin, tmax),
        ensures
            is_closest(self.hit(ray, tmin, tmax), self.objects@, ray, tmin, tmax),
    {
        let all = self.asked();
        let objects = self.objects@;
        self.lemma_is_sweep(ray, tmin, tmax);
        assert forall|j: int| 0 <= j < all.len() implies reports_first(
            #[trigger] all[j],
            ray,
            tmin,
            tmax,
        ) by {
            let i = choose|i: int| 0 <= i < objects.len() && objects[i] == all[j];
            assert(reports_first(objects[i], ray, tmin, tmax));
        }
        lemma_sweep_finds_closest(all, ray, tmin, tmax);
        match self.hit(ray, tmin, tmax) {
            Some(record) => {
                let j = choose|j: int|
                    0 <= j < all.len() && (#[trigger] all[j]).hit(ray, tmin, tmax) == Some(record);
                let i = choose|i: int| 0 <= i < objects.len() && objects[i] == all[j];
                assert(objects[i].hit(ray, tmin, tmax) == Some(record));
                assert forall|k: int| 0 <= k < objects.len() implies ((
                #[trigger] objects[k]).hit(ray, tmin, tmax) matches Some(other) ==> record.t.key()
                    <= other.t.key()) by {
                    let m = choose|m: int| 0 <= m < all.len() && all[m] == objects[k];
                    assert(all[m].hit(ray, tmin, tmax) == objects[k].hit(ray, tmin, tmax));
                }
            },
            None => {
                assert forall|k: int| 0 <= k < objects.len() implies (#[trigger] objects[k]).hit(
                    ray,
                    tmin,
                    tmax,
                ) is None by {
                    let m = choose|m: int| 0 <= m < all.len() && all[m] == objects[k];
                    assert(all[m].hit(ray, tmin, tmax) is None);
                }
            },
        }
    }

    /// A prepared scene reports its first intersection, where each of its
    /// surfaces does and no box of the tree hides a hit.
    pub proof fn lemma_reports_first(self, ray: Ray, tmin: Scalar, tmax: Option<Scalar>)
        requires
            self.prepared(),
            self.root.probes_sound(self.objects@, ray, tmin),
            tmax matches Some(limit) ==> !limit.nan(),
            all_report_first(self.objects@, ray, tmin, tmax),
        ensures
            reports_first(self, ray, tmin, tmax),
    {
        let all = self.asked();
        self.lemma_is_sweep(ray, tmin, tmax);
        assert forall|j: int| 0 <= j < all.len() implies reports_first(
            #[trigger] all[j],
            ray,
            tmin,
            tmax,
        ) by {
            let i = choose|i: int| 0 <= i < self.objects@.len() && self.objects@[i] == all[j];
            assert(reports_first(self.objects@[i], ray, tmin, tmax));
        }
        lemma_sweep_finds_closest(all, ray, tmin, tmax);
        assert forall|end: Scalar| !end.nan() && within_bound(end, tmax) implies #[trigger] self.hit(
            ray,
            tmin,
            Some(end),
        ) == cut_off(self.hit(ray, tmin, tmax), end) by {
            self.lemma_is_sweep(ray, tmin, Some(end));
            lemma_sweep_cut_off(all, ray, tmin, tmax, end);
        }
    }

    /// The prepared scene agrees with the plain list.  Where every surface
    /// reports its first intersection and no box of the tree hides a hit,
    /// the scene and a search through the surfaces as they were given find
    /// hits at the same distance, or both find none.
    pub proof fn lemma_agrees_with_list(self, ray: Ray, tmin: Scalar, tmax: Option<Scalar>)
        requires
            self.prepared(),
            self.root.probes_sound(self.objects@, ray, tmin),
            tmax matches Some(limit) ==> !limit.nan(),
            all_report_first(self.objects@, ray, tmin, tmax),
        ensures
            same_time(self.hit(ray, tmin, tmax), sweep(self.objects@, None, ray, tmin, tmax)),
    {
        self.lemma_is_sweep(ray, tmin, tmax);
        lemma_sweep_order_independent(self.objects@, self.asked(), ray, tmin, tmax);
    }
}

impl<H: Hittable, B: HitCheckable> Hittable for Scene<H, B> {
    /// The surfaces without a box are searched first, then the tree is asked
    /// for a hit closer than what they gave.
    open spec fn hit(&self, ray: Ray, tmin: Scalar, tmax: Option<Scalar>) -> Option<HitRecord> {
        let found = sweep_named(self.objects@, self.unbounded@, None, ray, tmin, tmax);
        or_found(
            self.root.spec_hit(self.objects@, ray, tmin, closing_bound(found, tmax)),
            found,
        )
    }

    /// A scene that holds a surface without a box has none itself.
    open spec fn bounds(&self) -> Option<AABB> {
        if self.unbounded@.len() > 0 {
            None
        } else {
            Some(self.root.total_box())
        }
    }

    fn is_hit_by(&self, ray: Ray, tmin: Scalar, tmax: Option<Scalar>) -> (r: Option<HitRecord>) {
        let mut current_closest = tmax;
        let mut final_record: Option<HitRecord> = None;
        let mut i: usize = 0;
        while i < self.unbounded.len()
            invariant
                0 <= i <= self.unbounded@.len(),
                final_record == sweep_named(
                    self.objects@,
                    self.unbounded@.take(i as int),
                    None,
                    ray,
                    tmin,
                    tmax,
                ),
                current_closest == closing_bound(final_record, tmax),
            decreases self.unbounded@.len() - i,
        {
            assert(self.unbounded@.take(i + 1).drop_last() =~= self.unbounded@.take(i as int));
            let k = self.unbounded[i];
            if k < self.objects.len() {
                if let Some(record) = self.objects[k].is_hit_by(ray, tmin, current_closest) {
                    current_closest = Some(record.t);
                    final_record = Some(record);
                }
            }
            i = i + 1;
        }
        assert(self.unbounded@.take(i as int) =~= self.unbounded@);
        if let Some(record) = self.root.is_hit_by(&self.objects, ray, tmin, current_closest) {
            final_record = Some(record);
        }
        final_record
    }

    fn bounding_box(&self) -> (r: Option<AABB>) {
        if self.unbounded.len() > 0 {
            None
        } else {
            Some(self.root.bounding_box())
        }
    }
}

} // verus!
