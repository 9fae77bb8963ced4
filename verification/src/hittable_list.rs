//! The composite intersectable: an ordered list of children, scanned in
//! insertion order under a shrinking upper bound, so that the nearest
//! valid hit wins.
use vstd::prelude::*;

use crate::fixed::Fx;
use crate::hittable::{hittable_wf, rec_wf, spec_hit, HitRecord, Hittable};
use crate::interval::{interval_wf, spec_surrounds, Interval};
use crate::ray::{ray_wf, Ray};

verus! {

/// An ordered composite of intersectables.
pub struct HittableList {
    pub objects: Vec<Hittable>,
}

/// The upper bound the next child is queried under: the best hit's
/// parameter so far, or the query range's own upper bound.
pub open spec fn spec_closest_bound(best: Option<HitRecord>, ray_t: Interval) -> Fx {
    match best {
        Some(rec) => rec.t,
        None => ray_t.max,
    }
}

/// The nearest valid hit among the children in `objs`, scanned left to
/// right: each child is queried inside `[ray_t.min, bound]` where
/// `bound` shrinks to the best parameter found so far, and a child's
/// hit replaces the current best.
pub open spec fn spec_list_hit(objs: Seq<Hittable>, r: Ray, ray_t: Interval) -> Option<HitRecord>
    decreases objs,
{
    if objs.len() == 0 {
        None
    } else {
        let prefix = spec_list_hit(objs.drop_last(), r, ray_t);
        let bound = spec_closest_bound(prefix, ray_t);
        match spec_hit(objs.last(), r, Interval { min: ray_t.min, max: bound }) {
            Some(rec) => Some(rec),
            None => prefix,
        }
    }
}

/// Any hit the composite scan reports lies strictly inside the query
/// range.
pub proof fn lemma_list_hit_in_interval(objs: Seq<Hittable>, r: Ray, ray_t: Interval)
    ensures
        spec_list_hit(objs, r, ray_t) matches Some(rec) ==> spec_surrounds(ray_t, rec.t),
    decreases objs,
{
    if objs.len() > 0 {
        lemma_list_hit_in_interval(objs.drop_last(), r, ray_t);
        let prefix = spec_list_hit(objs.drop_last(), r, ray_t);
        let bound = spec_closest_bound(prefix, ray_t);
        let sub = Interval { min: ray_t.min, max: bound };
        crate::hittable::lemma_hit_in_interval(objs.last(), r, sub);
        assert(bound.raw <= ray_t.max.raw);
    }
}

/// Shrinking the upper bound of the query range keeps the composite's
/// hit exactly when its parameter still lies under the new bound, and
/// can produce no other hit.
pub proof fn lemma_list_hit_shrink(objs: Seq<Hittable>, r: Ray, t1: Interval, t2: Interval)
    requires
        t1.min == t2.min,
        t2.max.raw <= t1.max.raw,
    ensures
        spec_list_hit(objs, r, t2) == (if spec_list_hit(objs, r, t1) matches Some(rec) && rec.t.raw
            < t2.max.raw {
            spec_list_hit(objs, r, t1)
        } else {
            None
        }),
    decreases objs,
{
    if objs.len() > 0 {
        lemma_list_hit_shrink(objs.drop_last(), r, t1, t2);
        lemma_list_hit_in_interval(objs.drop_last(), r, t1);
        lemma_list_hit_in_interval(objs.drop_last(), r, t2);
        let p1 = spec_list_hit(objs.drop_last(), r, t1);
        let p2 = spec_list_hit(objs.drop_last(), r, t2);
        let b1 = spec_closest_bound(p1, t1);
        let b2 = spec_closest_bound(p2, t2);
        let i1 = Interval { min: t1.min, max: b1 };
        let i2 = Interval { min: t2.min, max: b2 };
        assert(b2.raw <= b1.raw);
        crate::hittable::lemma_hit_shrink(objs.last(), r, i1, i2);
        crate::hittable::lemma_hit_in_interval(objs.last(), r, i1);
        crate::hittable::lemma_hit_in_interval(objs.last(), r, i2);
    }
}

/// The composite scan over children is exactly the selection of the
/// minimum-parameter child hit: it reports no hit precisely when no
/// child hits inside the query range, and otherwise it reports a hit
/// that some child reports against the full query range and whose
/// parameter is no larger than that of any child's hit.
pub proof fn lemma_list_hit_is_nearest(objs: Seq<Hittable>, r: Ray, ray_t: Interval)
    ensures
        spec_list_hit(objs, r, ray_t) is None ==> forall|i: int|
            0 <= i < objs.len() ==> spec_hit(#[trigger] objs[i], r, ray_t) is None,
        spec_list_hit(objs, r, ray_t) matches Some(rec) ==> {
            &&& exists|i: int|
                0 <= i < objs.len() && spec_hit(#[trigger] objs[i], r, ray_t) == Some(rec)
            &&& forall|i: int|
                0 <= i < objs.len() ==> (spec_hit(#[trigger] objs[i], r, ray_t) matches Some(o)
                    ==> rec.t.raw <= o.t.raw)
            &&& spec_surrounds(ray_t, rec.t)
        },
    decreases objs,
{
    lemma_list_hit_in_interval(objs, r, ray_t);
    if objs.len() > 0 {
        let pre = objs.drop_last();
        lemma_list_hit_is_nearest(pre, r, ray_t);
        lemma_list_hit_in_interval(pre, r, ray_t);
        assert(forall|i: int| 0 <= i < pre.len() ==> pre[i] == objs[i]);
        let p = spec_list_hit(pre, r, ray_t);
        let b = spec_closest_bound(p, ray_t);
        let sub = Interval { min: ray_t.min, max: b };
        let last = objs.last();
        assert(objs[objs.len() - 1] == last);
        crate::hittable::lemma_hit_shrink(last, r, ray_t, sub);
        crate::hittable::lemma_hit_in_interval(last, r, ray_t);
        let c_full = spec_hit(last, r, ray_t);
        let c = spec_hit(last, r, sub);
        match spec_list_hit(objs, r, ray_t) {
            Some(rec) => {
                if c is Some {
                    assert(spec_hit(objs[objs.len() - 1], r, ray_t) == Some(rec));
                } else {
                    let wi = choose|i: int|
                        0 <= i < pre.len() && spec_hit(#[trigger] pre[i], r, ray_t) == Some(rec);
                    assert(spec_hit(objs[wi], r, ray_t) == Some(rec));
                }
            },
            None => {},
        }
    }
}

/// Reordering the children does not change what the composite reports:
/// two composites holding the same children (as a multiset) agree on
/// whether a ray hits, and on the hit parameter.
#[verifier::rlimit(60)]
pub proof fn lemma_list_hit_order_insensitive(
    objs1: Seq<Hittable>,
    objs2: Seq<Hittable>,
    r: Ray,
    ray_t: Interval,
)
    requires
        objs1.to_multiset() == objs2.to_multiset(),
    ensures
        (spec_list_hit(objs1, r, ray_t) is None) == (spec_list_hit(objs2, r, ray_t) is None),
        spec_list_hit(objs1, r, ray_t) matches Some(rec1) ==> (spec_list_hit(
            objs2,
            r,
            ray_t,
        ) matches Some(rec2) && rec1.t == rec2.t),
{
    lemma_list_hit_is_nearest(objs1, r, ray_t);
    lemma_list_hit_is_nearest(objs2, r, ray_t);
    objs1.to_multiset_ensures();
    objs2.to_multiset_ensures();
    assert forall|i: int| 0 <= i < objs1.len() implies objs2.contains(#[trigger] objs1[i]) by {
        assert(objs1.contains(objs1[i]));
        assert(objs1.to_multiset().count(objs1[i]) > 0);
    }
    assert forall|i: int| 0 <= i < objs2.len() implies objs1.contains(#[trigger] objs2[i]) by {
        assert(objs2.contains(objs2[i]));
        assert(objs2.to_multiset().count(objs2[i]) > 0);
    }
    let h1 = spec_list_hit(objs1, r, ray_t);
    let h2 = spec_list_hit(objs2, r, ray_t);
    if h1 is Some && h2 is None {
        let rec = h1->0;
        let wi = choose|i: int|
            0 <= i < objs1.len() && spec_hit(#[trigger] objs1[i], r, ray_t) == Some(rec);
        let j = choose|j: int| 0 <= j < objs2.len() && objs2[j] == objs1[wi];
        assert(spec_hit(objs2[j], r, ray_t) is None);
        assert(false);
    }
    if h2 is Some && h1 is None {
        let rec = h2->0;
        let wi = choose|i: int|
            0 <= i < objs2.len() && spec_hit(#[trigger] objs2[i], r, ray_t) == Some(rec);
        let j = choose|j: int| 0 <= j < objs1.len() && objs1[j] == objs2[wi];
        assert(spec_hit(objs1[j], r, ray_t) is None);
        assert(false);
    }
    if h1 is Some && h2 is Some {
        let rec1 = h1->0;
        let rec2 = h2->0;
        let w1 = choose|i: int|
            0 <= i < objs1.len() && spec_hit(#[trigger] objs1[i], r, ray_t) == Some(rec1);
        let j1 = choose|j: int| 0 <= j < objs2.len() && objs2[j] == objs1[w1];
        assert(rec2.t.raw <= rec1.t.raw);
        let w2 = choose|i: int|
            0 <= i < objs2.len() && spec_hit(#[trigger] objs2[i], r, ray_t) == Some(rec2);
        let j2 = choose|j: int| 0 <= j < objs1.len() && objs1[j] == objs2[w2];
        assert(rec1.t.raw <= rec2.t.raw);
        assert(rec1.t.raw == rec2.t.raw);
    }
}

impl HittableList {
    /// An empty composite.
    pub fn new() -> (l: HittableList)
        ensures
            l.objects@.len() == 0,
    {
        HittableList { objects: Vec::new() }
    }

    /// A composite holding one object.
    pub fn with_object(object: Hittable) -> (l: HittableList)
        ensures
            l.objects@ =~= seq![object],
    {
        let mut list = Self::new();
        list.add(object);
        list
    }

    /// Removes every child.
    pub fn clear(&mut self)
        ensures
            final(self).objects@.len() == 0,
    {
        self.objects.clear();
    }

    /// Appends a child; it is scanned after every child already held.
    pub fn add(&mut self, object: Hittable)
        ensures
            final(self).objects@ =~= old(self).objects@.push(object),
    {
        self.objects.push(object);
    }

    /// A shared handle to an empty composite.
    pub fn new_shared() -> (r: std::sync::Arc<HittableList>)
        ensures
            r.objects@.len() == 0,
    {
        std::sync::Arc::new(Self::new())
    }

    /// Intersects a ray with every child inside `ray_t` and returns the
    /// nearest valid hit.
    #[verifier::loop_isolation(false)]
    pub fn hit(&self, r: &Ray, ray_t: Interval) -> (res: Option<HitRecord>)
        requires
            forall|i: int|
                0 <= i < self.objects@.len() ==> hittable_wf(#[trigger] self.objects@[i]),
            ray_wf(*r),
            interval_wf(ray_t),
        ensures
            res == spec_list_hit(self.objects@, *r, ray_t),
            res matches Some(rec) ==> rec_wf(rec) && spec_surrounds(ray_t, rec.t),
        decreases self.objects@,
    {
        let mut closest_hit: Option<HitRecord> = None;
        let mut closest_so_far: Fx = ray_t.max;
        let n = self.objects.len();
        let mut i: usize = 0;
        while i < n
            invariant
                0 <= i <= n,
                closest_hit == spec_list_hit(self.objects@.subrange(0, i as int), *r, ray_t),
                closest_so_far == spec_closest_bound(closest_hit, ray_t),
                closest_hit matches Some(rec) ==> rec_wf(rec) && spec_surrounds(ray_t, rec.t),
            decreases n - i,
        {
            let object = &self.objects[i];
            let sub_t = Interval::with_bounds(ray_t.min, closest_so_far);
            let child_hit = object.hit(r, sub_t);
            proof {
                let full = self.objects@;
                assert(full.subrange(0, i + 1 as int).drop_last() =~= full.subrange(0, i as int));
                assert(full.subrange(0, i + 1 as int).last() == full[i as int]);
            }
            match child_hit {
                Some(rec) => {
                    proof {
                        assert(spec_surrounds(ray_t, rec.t)) by {
                            assert(spec_surrounds(sub_t, rec.t));
                            assert(sub_t.max.raw <= ray_t.max.raw);
                        }
                    }
                    closest_so_far = rec.t;
                    closest_hit = Some(rec);
                },
                None => {},
            }
            i = i + 1;
        }
        proof {
            assert(self.objects@.subrange(0, n as int) =~= self.objects@);
        }
        closest_hit
    }
}

} // verus!
