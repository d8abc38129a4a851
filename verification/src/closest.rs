//! What the search for the closest hit finds.

use vstd::prelude::*;
use crate::hittable::{closing_bound, sweep, sweep_step, FlipFace, HitRecord, Hittable};
use crate::ray::Ray;
use crate::scalar::{spec_is_in_range, Scalar};

verus! {

/// `end` does not lie beyond `tmax`.
pub open spec fn within_bound(end: Scalar, tmax: Option<Scalar>) -> bool {
    match tmax {
        Some(limit) => end.key() <= limit.key(),
        None => true,
    }
}

/// What `whole`, the answer for a whole interval, leaves for the interval cut
/// off at `end`: itself if it lies before `end`, else nothing.
pub open spec fn cut_off(whole: Option<HitRecord>, end: Scalar) -> Option<HitRecord> {
    match whole {
        Some(record) => if record.t.spec_lt(end) {
            Some(record)
        } else {
            None
        },
        None => None,
    }
}

/// `item` reports its first intersection with `ray` in an interval.
///
/// Its hit in `[tmin, tmax)` has a parameter that is a number in that
/// interval, and for an interval cut off earlier it reports the same hit if
/// that still lies inside, and none otherwise.
pub open spec fn reports_first<H: Hittable>(
    item: H,
    ray: Ray,
    tmin: Scalar,
    tmax: Option<Scalar>,
) -> bool {
    let whole = item.hit(ray, tmin, tmax);
    &&& whole matches Some(record) ==> !record.t.nan() && spec_is_in_range(record.t, tmin, tmax)
    &&& forall|end: Scalar|
        !end.nan() && within_bound(end, tmax) ==> #[trigger] item.hit(ray, tmin, Some(end))
            == cut_off(whole, end)
}

/// A surface seen from its other side reports its first intersection if the
/// surface itself does.
pub proof fn lemma_flip_reports_first<H: Hittable>(
    flipped: FlipFace<H>,
    ray: Ray,
    tmin: Scalar,
    tmax: Option<Scalar>,
)
    requires
        reports_first(flipped.inner, ray, tmin, tmax),
    ensures
        reports_first(flipped, ray, tmin, tmax),
{
    let whole = flipped.inner.hit(ray, tmin, tmax);
    assert forall|end: Scalar| !end.nan() && within_bound(end, tmax) implies #[trigger] flipped.hit(
        ray,
        tmin,
        Some(end),
    ) == cut_off(flipped.hit(ray, tmin, tmax), end) by {
        assert(flipped.inner.hit(ray, tmin, Some(end)) == cut_off(whole, end));
    }
}

/// Every item of the list reports its first intersection.
pub open spec fn all_report_first<H: Hittable>(
    items: Seq<H>,
    ray: Ray,
    tmin: Scalar,
    tmax: Option<Scalar>,
) -> bool {
    forall|i: int| 0 <= i < items.len() ==> reports_first(#[trigger] items[i], ray, tmin, tmax)
}

/// `found` is the closest of the hits that the items have in `[tmin, tmax)`:
/// it is the hit of one of them, and none of them has an earlier one.
pub open spec fn is_closest<H: Hittable>(
    found: Option<HitRecord>,
    items: Seq<H>,
    ray: Ray,
    tmin: Scalar,
    tmax: Option<Scalar>,
) -> bool {
    match found {
        Some(record) => {
            &&& !record.t.nan()
            &&& spec_is_in_range(record.t, tmin, tmax)
            &&& exists|i: int|
                0 <= i < items.len() && (#[trigger] items[i]).hit(ray, tmin, tmax) == Some(record)
            &&& forall|j: int|
                0 <= j < items.len() ==> ((#[trigger] items[j]).hit(ray, tmin, tmax) matches Some(
                    other,
                ) ==> record.t.key() <= other.t.key())
        },
        None => forall|j: int|
            0 <= j < items.len() ==> (#[trigger] items[j]).hit(ray, tmin, tmax) is None,
    }
}

/// Two answers agree on whether there is a hit and on its distance.
pub open spec fn same_time(a: Option<HitRecord>, b: Option<HitRecord>) -> bool {
    match (a, b) {
        (Some(x), Some(y)) => x.t.spec_same(y.t),
        (None, None) => true,
        _ => false,
    }
}

/// The search returns the closest hit: among items that report their first
/// intersection, what the search finds is the hit of one of them, and no
/// item has an earlier one.
pub proof fn lemma_sweep_finds_closest<H: Hittable>(
    items: Seq<H>,
    ray: Ray,
    tmin: Scalar,
    tmax: Option<Scalar>,
)
    requires
        tmax matches Some(limit) ==> !limit.nan(),
        all_report_first(items, ray, tmin, tmax),
    ensures
        is_closest(sweep(items, None, ray, tmin, tmax), items, ray, tmin, tmax),
    decreases items.len(),
{
    if items.len() > 0 {
        let front = items.drop_last();
        let last = items.last();
        assert forall|i: int| 0 <= i < front.len() implies reports_first(
            #[trigger] front[i],
            ray,
            tmin,
            tmax,
        ) by {
            assert(front[i] == items[i]);
        }
        lemma_sweep_finds_closest(front, ray, tmin, tmax);
        let before = sweep(front, None, ray, tmin, tmax);
        let after = sweep(items, None, ray, tmin, tmax);
        assert(after == sweep_step(last, before, ray, tmin, tmax));
        assert(reports_first(items[items.len() - 1], ray, tmin, tmax));
        let whole = last.hit(ray, tmin, tmax);
        assert forall|j: int| 0 <= j < front.len() implies (#[trigger] items[j]).hit(
            ray,
            tmin,
            tmax,
        ) == front[j].hit(ray, tmin, tmax) by {
            assert(front[j] == items[j]);
        }
        match before {
            Some(record) => {
                let end = record.t;
                assert(within_bound(end, tmax));
                assert(last.hit(ray, tmin, Some(end)) == cut_off(whole, end));
                let i = choose|i: int|
                    0 <= i < front.len() && (#[trigger] front[i]).hit(ray, tmin, tmax) == Some(
                        record,
                    );
                assert(items[i] == front[i]);
                match cut_off(whole, end) {
                    Some(closer) => {
                        assert(after == Some(closer));
                        assert(items[items.len() - 1].hit(ray, tmin, tmax) == Some(closer));
                        assert forall|j: int| 0 <= j < items.len() implies ((
                        #[trigger] items[j]).hit(ray, tmin, tmax) matches Some(other)
                            ==> closer.t.key() <= other.t.key()) by {
                            if j < front.len() {
                                assert(front[j] == items[j]);
                            }
                        }
                    },
                    None => {
                        assert(after == before);
                        assert(items[i].hit(ray, tmin, tmax) == Some(record));
                        assert forall|j: int| 0 <= j < items.len() implies ((
                        #[trigger] items[j]).hit(ray, tmin, tmax) matches Some(other)
                            ==> record.t.key() <= other.t.key()) by {
                            if j < front.len() {
                                assert(front[j] == items[j]);
                            }
                        }
                    },
                }
            },
            None => {
                assert(closing_bound(before, tmax) == tmax);
                assert(after == whole);
                match whole {
                    Some(record) => {
                        assert(items[items.len() - 1].hit(ray, tmin, tmax) == Some(record));
                        assert forall|j: int| 0 <= j < items.len() implies ((
                        #[trigger] items[j]).hit(ray, tmin, tmax) matches Some(other)
                            ==> record.t.key() <= other.t.key()) by {
                            if j < front.len() {
                                assert(front[j] == items[j]);
                            }
                        }
                    },
                    None => {
                        assert forall|j: int| 0 <= j < items.len() implies (
                        #[trigger] items[j]).hit(ray, tmin, tmax) is None by {
                            if j < front.len() {
                                assert(front[j] == items[j]);
                            }
                        }
                    },
                }
            },
        }
    }
}

/// The order of the list does not matter: two lists that hold the same
/// items, each reporting its first intersection, give hits at the same
/// distance, or both none.
pub proof fn lemma_sweep_order_independent<H: Hittable>(
    a: Seq<H>,
    b: Seq<H>,
    ray: Ray,
    tmin: Scalar,
    tmax: Option<Scalar>,
)
    requires
        tmax matches Some(limit) ==> !limit.nan(),
        all_report_first(a, ray, tmin, tmax),
        forall|i: int| 0 <= i < a.len() ==> b.contains(#[trigger] a[i]),
        forall|j: int| 0 <= j < b.len() ==> a.contains(#[trigger] b[j]),
    ensures
        same_time(sweep(a, None, ray, tmin, tmax), sweep(b, None, ray, tmin, tmax)),
{
    assert forall|j: int| 0 <= j < b.len() implies reports_first(
        #[trigger] b[j],
        ray,
        tmin,
        tmax,
    ) by {
        assert(a.contains(b[j]));
        let i = choose|i: int| 0 <= i < a.len() && a[i] == b[j];
        assert(reports_first(a[i], ray, tmin, tmax));
    }
    lemma_sweep_finds_closest(a, ray, tmin, tmax);
    lemma_sweep_finds_closest(b, ray, tmin, tmax);
    let ra = sweep(a, None, ray, tmin, tmax);
    let rb = sweep(b, None, ray, tmin, tmax);
    match ra {
        Some(x) => {
            let i = choose|i: int|
                0 <= i < a.len() && (#[trigger] a[i]).hit(ray, tmin, tmax) == Some(x);
            assert(b.contains(a[i]));
            let j = choose|j: int| 0 <= j < b.len() && b[j] == a[i];
            assert(b[j].hit(ray, tmin, tmax) == Some(x));
            match rb {
                Some(y) => {
                    let j2 = choose|j2: int|
                        0 <= j2 < b.len() && (#[trigger] b[j2]).hit(ray, tmin, tmax) == Some(y);
                    assert(a.contains(b[j2]));
                    let i2 = choose|i2: int| 0 <= i2 < a.len() && a[i2] == b[j2];
                    assert(a[i2].hit(ray, tmin, tmax) == Some(y));
                },
                None => {},
            }
        },
        None => {
            match rb {
                Some(y) => {
                    let j2 = choose|j2: int|
                        0 <= j2 < b.len() && (#[trigger] b[j2]).hit(ray, tmin, tmax) == Some(y);
                    assert(a.contains(b[j2]));
                    let i2 = choose|i2: int| 0 <= i2 < a.len() && a[i2] == b[j2];
                    assert(a[i2].hit(ray, tmin, tmax) == Some(y));
                },
                None => {},
            }
        },
    }
}

/// What a search finds in an interval cut off earlier: what it finds in the
/// whole interval if that lies before the cut, and nothing otherwise.
pub proof fn lemma_sweep_cut_off<H: Hittable>(
    items: Seq<H>,
    ray: Ray,
    tmin: Scalar,
    tmax: Option<Scalar>,
    end: Scalar,
)
    requires
        tmax matches Some(limit) ==> !limit.nan(),
        all_report_first(items, ray, tmin, tmax),
        !end.nan(),
        within_bound(end, tmax),
    ensures
        sweep(items, None, ray, tmin, Some(end)) == cut_off(
            sweep(items, None, ray, tmin, tmax),
            end,
        ),
    decreases items.len(),
{
    if items.len() > 0 {
        let front = items.drop_last();
        let last = items.last();
        assert forall|j: int| 0 <= j < front.len() implies reports_first(
            #[trigger] front[j],
            ray,
            tmin,
            tmax,
        ) by {
            assert(front[j] == items[j]);
        }
        lemma_sweep_cut_off(front, ray, tmin, tmax, end);
        lemma_sweep_finds_closest(front, ray, tmin, tmax);
        assert(reports_first(items[items.len() - 1], ray, tmin, tmax));
        let whole = last.hit(ray, tmin, tmax);
        match sweep(front, None, ray, tmin, tmax) {
            Some(held) => {
                assert(within_bound(held.t, tmax));
                assert(last.hit(ray, tmin, Some(held.t)) == cut_off(whole, held.t));
                assert(last.hit(ray, tmin, Some(end)) == cut_off(whole, end));
            },
            None => {
                assert(last.hit(ray, tmin, Some(end)) == cut_off(whole, end));
            },
        }
    }
}

/// A list of surfaces that each report their first intersection reports its
/// first intersection.
pub proof fn lemma_list_reports_first<H: Hittable>(
    list: Vec<H>,
    ray: Ray,
    tmin: Scalar,
    tmax: Option<Scalar>,
)
    requires
        tmax matches Some(limit) ==> !limit.nan(),
        all_report_first(list@, ray, tmin, tmax),
    ensures
        reports_first(list, ray, tmin, tmax),
{
    lemma_sweep_finds_closest(list@, ray, tmin, tmax);
    assert forall|end: Scalar| !end.nan() && within_bound(end, tmax) implies #[trigger] list.hit(
        ray,
        tmin,
        Some(end),
    ) == cut_off(list.hit(ray, tmin, tmax), end) by {
        lemma_sweep_cut_off(list@, ray, tmin, tmax, end);
    }
}

} // verus!
