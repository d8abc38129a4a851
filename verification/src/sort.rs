//! Ordering the boxed surfaces of a scene along an axis.

use vstd::prelude::*;
use crate::aabb::AABB;
use crate::vec3::Axis;

verus! {

/// A surface that has a box: its index in the scene's list, and the box.
#[derive(Clone, Copy, Debug, PartialEq, Eq, Structural)]
pub struct Bounded {
    pub index: usize,
    pub bounding_box: AABB,
}

impl Bounded {
    /// The coordinate by which surfaces are ordered along `axis`: where the
    /// box begins.
    pub open spec fn sort_key(self, axis: Axis) -> int {
        self.bounding_box.min.spec_get(axis).key()
    }
}

/// Every box of the list is well formed.
pub open spec fn all_boxes_wf(s: Seq<Bounded>) -> bool {
    forall|i: int| 0 <= i < s.len() ==> (#[trigger] s[i]).bounding_box.wf()
}

/// The list is in ascending order of where the boxes begin along `axis`.
pub open spec fn sorted_along(s: Seq<Bounded>, axis: Axis) -> bool {
    forall|i: int, j: int|
        0 <= i < j < s.len() ==> (#[trigger] s[i]).sort_key(axis) <= (#[trigger] s[j]).sort_key(
            axis,
        )
}

/// Whether `a` may stand before `b` along `axis`.
fn begins_no_later(a: &Bounded, b: &Bounded, axis: Axis) -> (r: bool)
    requires
        a.bounding_box.wf(),
        b.bounding_box.wf(),
    ensures
        r == (a.sort_key(axis) <= b.sort_key(axis)),
{
    a.bounding_box.min.get(axis).le(b.bounding_box.min.get(axis))
}

/// Merges two ordered lists into one; of two surfaces that begin at the same
/// coordinate the one from `left` comes first.
fn merge(left: &Vec<Bounded>, right: &Vec<Bounded>, axis: Axis) -> (r: Vec<Bounded>)
    requires
        all_boxes_wf(left@),
        all_boxes_wf(right@),
        sorted_along(left@, axis),
        sorted_along(right@, axis),
        left@.len() + right@.len() <= usize::MAX,
    ensures
        sorted_along(r@, axis),
        r@.to_multiset() == left@.to_multiset().add(right@.to_multiset()),
        r@.len() == left@.len() + right@.len(),
{
    broadcast use {vstd::seq_lib::group_to_multiset_ensures, vstd::multiset::group_multiset_axioms};

    let mut out: Vec<Bounded> = Vec::new();
    let mut i: usize = 0;
    let mut j: usize = 0;
    assert(left@.subrange(0, 0) =~= Seq::<Bounded>::empty());
    assert(right@.subrange(0, 0) =~= Seq::<Bounded>::empty());
    while i < left.len() || j < right.len()
        invariant
            0 <= i <= left@.len(),
            0 <= j <= right@.len(),
            left@.len() + right@.len() <= usize::MAX,
            all_boxes_wf(left@),
            all_boxes_wf(right@),
            sorted_along(left@, axis),
            sorted_along(right@, axis),
            out@.len() == i + j,
            sorted_along(out@, axis),
            out@.to_multiset() =~= left@.subrange(0, i as int).to_multiset().add(
                right@.subrange(0, j as int).to_multiset(),
            ),
            forall|k: int, m: int|
                0 <= k < out@.len() && i <= m < left@.len() ==> (#[trigger] out@[k]).sort_key(axis)
                    <= (#[trigger] left@[m]).sort_key(axis),
            forall|k: int, m: int|
                0 <= k < out@.len() && j <= m < right@.len() ==> (#[trigger] out@[k]).sort_key(
                    axis,
                ) <= (#[trigger] right@[m]).sort_key(axis),
        decreases left@.len() - i + right@.len() - j,
    {
        let take_left = if i >= left.len() {
            false
        } else if j >= right.len() {
            true
        } else {
            begins_no_later(&left[i], &right[j], axis)
        };
        let ghost before = out@;
        if take_left {
            let e = left[i];
            out.push(e);
            proof {
                assert(out@ =~= before.push(e));
                assert(left@.subrange(0, i + 1) =~= left@.subrange(0, i as int).push(e));
                vstd::seq_lib::to_multiset_build(before, e);
                vstd::seq_lib::to_multiset_build(left@.subrange(0, i as int), e);
            }
            i = i + 1;
        } else {
            let e = right[j];
            out.push(e);
            proof {
                assert(out@ =~= before.push(e));
                assert(right@.subrange(0, j + 1) =~= right@.subrange(0, j as int).push(e));
                vstd::seq_lib::to_multiset_build(before, e);
                vstd::seq_lib::to_multiset_build(right@.subrange(0, j as int), e);
            }
            j = j + 1;
        }
        assert forall|a: int, b: int| 0 <= a < b < out@.len() implies (#[trigger] out@[a]).sort_key(
            axis,
        ) <= (#[trigger] out@[b]).sort_key(axis) by {
            if b < before.len() {
                assert(out@[a] == before[a] && out@[b] == before[b]);
            } else {
                assert(out@[a] == before[a]);
            }
        }
    }
    assert(left@.subrange(0, i as int) =~= left@);
    assert(right@.subrange(0, j as int) =~= right@);
    assert(out@.to_multiset() =~= left@.to_multiset().add(right@.to_multiset()));
    out
}

/// Orders the surfaces by where their boxes begin along `axis`.
///
/// The result holds the same surfaces, each as often as before, in
/// ascending order of that coordinate.
pub fn sort_by_axis(entries: Vec<Bounded>, axis: Axis) -> (r: Vec<Bounded>)
    requires
        all_boxes_wf(entries@),
    ensures
        sorted_along(r@, axis),
        r@.to_multiset() == entries@.to_multiset(),
        r@.len() == entries@.len(),
        all_boxes_wf(r@),
    decreases entries@.len(),
{
    broadcast use vstd::seq_lib::group_to_multiset_ensures;

    if entries.len() <= 1 {
        return entries;
    }
    let ghost whole = entries@;
    let mut left = entries;
    let mid = left.len() / 2;
    let right = left.split_off(mid);
    assert(whole =~= left@ + right@);
    proof {
        vstd::seq_lib::lemma_multiset_commutative(left@, right@);
    }
    assert(all_boxes_wf(left@)) by {
        assert forall|i: int| 0 <= i < left@.len() implies (#[trigger] left@[i]).bounding_box.wf() by {
            assert(left@[i] == whole[i]);
        }
    }
    assert(all_boxes_wf(right@)) by {
        assert forall|i: int| 0 <= i < right@.len() implies (
        #[trigger] right@[i]).bounding_box.wf() by {
            assert(right@[i] == whole[mid + i]);
        }
    }
    let left = sort_by_axis(left, axis);
    let right = sort_by_axis(right, axis);
    let merged = merge(&left, &right, axis);
    assert(all_boxes_wf(merged@)) by {
        assert forall|i: int| 0 <= i < merged@.len() implies (
        #[trigger] merged@[i]).bounding_box.wf() by {
            let e = merged@[i];
            assert(merged@.contains(e));
            assert(merged@.to_multiset().count(e) > 0);
            assert(whole.to_multiset().count(e) > 0);
            assert(whole.contains(e));
            let k = choose|k: int| 0 <= k < whole.len() && whole[k] == e;
            assert(whole[k].bounding_box.wf());
        }
    }
    merged
}

} // verus!
