//! The linear closest-hit scan shared by every aggregate.
//!
//! An aggregate walks its children, keeping the closest hit so far and
//! calling each child with a progressively tightening upper bound. The
//! theorems here pin that protocol down: the scan reports exactly the hit of
//! one of the children, none of which hits closer, and the scan itself obeys
//! the same tightening law as a single primitive, so aggregates nest.
use vstd::prelude::*;

verus! {

use crate::fixed::T_LIMIT;
use crate::math::{Ray, RayV};
use crate::hit::{HitRecord, HitV, Hittable, ray_wf, opt_hit_view, restrict_hit, hit_ok};

/// Whether every element of a sequence is well-formed.
pub open spec fn all_wf<T: Hittable>(objs: Seq<T>) -> bool {
    forall|i: int| 0 <= i < objs.len() ==> objs[i].wf()
}

/// The state of a closest-hit scan over `objs`, entered with the best hit
/// found so far and its parameter as the current upper bound.
pub open spec fn scan_hit<T: Hittable>(
    objs: Seq<T>,
    ray: RayV,
    t_min: int,
    closest: int,
    best: Option<HitV>,
) -> Option<HitV>
    decreases objs.len(),
{
    if objs.len() == 0 {
        best
    } else {
        match objs[0].hit_spec(ray, t_min, closest) {
            Some(h) => scan_hit(objs.drop_first(), ray, t_min, h.t, Some(h)),
            None => scan_hit(objs.drop_first(), ray, t_min, closest, best),
        }
    }
}

/// The hit a linear scan of `objs` reports on `(t_min, t_max]`.
pub open spec fn seq_hit_spec<T: Hittable>(
    objs: Seq<T>,
    ray: RayV,
    t_min: int,
    t_max: int,
) -> Option<HitV> {
    scan_hit(objs, ray, t_min, t_max, None)
}

/// Whether no element of `objs` reports a hit on `(t_min, bound]`.
pub open spec fn no_hit_within<T: Hittable>(
    objs: Seq<T>,
    ray: RayV,
    t_min: int,
    bound: int,
) -> bool {
    forall|i: int| 0 <= i < objs.len() ==> objs[i].hit_spec(ray, t_min, bound) == None::<HitV>
}

/// Whether `h` is a closest hit among `objs` on `(t_min, bound]`: some
/// element reports exactly `h`, and no element reports a hit with a smaller
/// parameter.
pub open spec fn closest_hit_of<T: Hittable>(
    objs: Seq<T>,
    ray: RayV,
    t_min: int,
    bound: int,
    h: HitV,
) -> bool {
    &&& exists|i: int|
        0 <= i < objs.len() && objs[i].hit_spec(ray, t_min, bound) == Some(h)
    &&& forall|j: int|
        0 <= j < objs.len() ==> ((#[trigger] objs[j].hit_spec(ray, t_min, bound)) matches Some(g)
            ==> h.t <= g.t)
}

/// What a scan entered with accumulator `(closest, best)` reports: nothing
/// only if it started with nothing and no element hits; otherwise either the
/// accumulated best, or the hit of some element, in either case no farther
/// than any element's hit.
pub proof fn lemma_scan_characterize<T: Hittable>(
    objs: Seq<T>,
    ray: RayV,
    t_min: int,
    closest: int,
    best: Option<HitV>,
)
    requires
        all_wf(objs),
        match best {
            Some(b) => b.t == closest && t_min < b.t,
            None => true,
        },
    ensures
        match scan_hit(objs, ray, t_min, closest, best) {
            None => best == None::<HitV> && no_hit_within(objs, ray, t_min, closest),
            Some(h) => {
                &&& t_min < h.t <= closest
                &&& (Some(h) == best || exists|i: int|
                    0 <= i < objs.len() && objs[i].hit_spec(ray, t_min, closest) == Some(h))
                &&& forall|j: int|
                    0 <= j < objs.len() ==> ((#[trigger] objs[j].hit_spec(ray, t_min, closest))
                        matches Some(g) ==> h.t <= g.t)
            },
        },
    decreases objs.len(),
{
    if objs.len() == 0 {
    } else {
        let e = objs[0];
        let rest = objs.drop_first();
        assert(e.wf());
        assert(all_wf(rest)) by {
            assert(forall|i: int| 0 <= i < rest.len() ==> rest[i] == objs[i + 1]);
        }
        let r0 = e.hit_spec(ray, t_min, closest);
        e.lemma_hit_valid(ray, t_min, closest);
        match r0 {
            None => {
                lemma_scan_characterize(rest, ray, t_min, closest, best);
                match scan_hit(objs, ray, t_min, closest, best) {
                    None => {
                        assert(no_hit_within(objs, ray, t_min, closest)) by {
                            assert(forall|i: int| 1 <= i < objs.len() ==> objs[i] == rest[i - 1]);
                        }
                    },
                    Some(h) => {
                        if Some(h) != best {
                            let i = choose|i: int|
                                0 <= i < rest.len() && rest[i].hit_spec(ray, t_min, closest)
                                    == Some(h);
                            assert(objs[i + 1] == rest[i]);
                            assert(objs[i + 1].hit_spec(ray, t_min, closest) == Some(h));
                        }
                        assert(forall|j: int|
                            1 <= j < objs.len() ==> objs[j] == rest[j - 1]);
                    },
                }
            },
            Some(h0) => {
                lemma_scan_characterize(rest, ray, t_min, h0.t, Some(h0));
                let res = scan_hit(rest, ray, t_min, h0.t, Some(h0));
                assert(scan_hit(objs, ray, t_min, closest, best) == res);
                match res {
                    None => {
                        assert(false);
                    },
                    Some(h) => {
                        assert(t_min < h.t <= h0.t <= closest);
                        if Some(h) == Some(h0) {
                            assert(objs[0].hit_spec(ray, t_min, closest) == Some(h));
                        } else {
                            let i = choose|i: int|
                                0 <= i < rest.len() && rest[i].hit_spec(ray, t_min, h0.t) == Some(
                                    h,
                                );
                            rest[i].lemma_hit_restrict(ray, t_min, closest, h0.t);
                            assert(objs[i + 1] == rest[i]);
                            assert(objs[i + 1].hit_spec(ray, t_min, closest) == Some(h));
                        }
                        assert forall|j: int| 0 <= j < objs.len() implies ((
                        #[trigger] objs[j].hit_spec(ray, t_min, closest)) matches Some(g)
                            ==> h.t <= g.t) by {
                            if j == 0 {
                            } else {
                                assert(objs[j] == rest[j - 1]);
                                objs[j].lemma_hit_restrict(ray, t_min, closest, h0.t);
                                match objs[j].hit_spec(ray, t_min, closest) {
                                    Some(g) => {
                                        if g.t <= h0.t {
                                            assert(rest[j - 1].hit_spec(ray, t_min, h0.t) == Some(
                                                g,
                                            ));
                                        } else {
                                            assert(h.t <= h0.t < g.t);
                                        }
                                    },
                                    None => {},
                                }
                            }
                        }
                    },
                }
            },
        }
    }
}

/// The scan of `objs` on `(t_min, t_max]` reports nothing exactly when no
/// element hits, and otherwise a closest hit of one of the elements.
pub proof fn lemma_seq_hit_closest<T: Hittable>(objs: Seq<T>, ray: RayV, t_min: int, t_max: int)
    requires
        all_wf(objs),
    ensures
        match seq_hit_spec(objs, ray, t_min, t_max) {
            None => no_hit_within(objs, ray, t_min, t_max),
            Some(h) => t_min < h.t <= t_max && closest_hit_of(objs, ray, t_min, t_max, h),
        },
{
    lemma_scan_characterize(objs, ray, t_min, t_max, None);
}

/// Tightening the bound of a scan filters its result, exactly as it filters
/// the result of each element.
pub proof fn lemma_scan_restrict<T: Hittable>(
    objs: Seq<T>,
    ray: RayV,
    t_min: int,
    closest: int,
    best: Option<HitV>,
    t2: int,
)
    requires
        all_wf(objs),
        t_min <= t2 <= closest,
        match best {
            Some(b) => b.t == closest && t_min < b.t,
            None => true,
        },
    ensures
        scan_hit(objs, ray, t_min, t2, restrict_hit(best, t2)) == restrict_hit(
            scan_hit(objs, ray, t_min, closest, best),
            t2,
        ),
    decreases objs.len(),
{
    if objs.len() == 0 {
    } else {
        let e = objs[0];
        let rest = objs.drop_first();
        assert(e.wf());
        assert(all_wf(rest)) by {
            assert(forall|i: int| 0 <= i < rest.len() ==> rest[i] == objs[i + 1]);
        }
        let r0 = e.hit_spec(ray, t_min, closest);
        e.lemma_hit_valid(ray, t_min, closest);
        e.lemma_hit_restrict(ray, t_min, closest, t2);
        match r0 {
            None => {
                lemma_scan_restrict(rest, ray, t_min, closest, best, t2);
            },
            Some(h0) => {
                if h0.t <= t2 {
                    lemma_scan_characterize(rest, ray, t_min, h0.t, Some(h0));
                    match scan_hit(rest, ray, t_min, h0.t, Some(h0)) {
                        None => {
                            assert(false);
                        },
                        Some(h) => {
                            assert(h.t <= h0.t <= t2);
                            assert(restrict_hit(Some(h), t2) == Some(h));
                        },
                    }
                } else {
                    lemma_scan_restrict(rest, ray, t_min, h0.t, Some(h0), t2);
                    assert(restrict_hit(Some(h0), t2) == None::<HitV>);
                    assert(restrict_hit(best, t2) == None::<HitV>);
                }
            },
        }
    }
}

/// The tightening law for a whole scan, in the form the `Hittable` contract
/// asks of an aggregate.
pub proof fn lemma_seq_hit_restrict<T: Hittable>(
    objs: Seq<T>,
    ray: RayV,
    t_min: int,
    t_max: int,
    t2: int,
)
    requires
        all_wf(objs),
        t_min <= t2 <= t_max,
    ensures
        seq_hit_spec(objs, ray, t_min, t2) == restrict_hit(seq_hit_spec(objs, ray, t_min, t_max), t2),
{
    lemma_scan_restrict(objs, ray, t_min, t_max, None, t2);
}

/// Every hit a scan reports is valid for the queried interval.
pub proof fn lemma_seq_hit_valid<T: Hittable>(objs: Seq<T>, ray: RayV, t_min: int, t_max: int)
    requires
        all_wf(objs),
    ensures
        hit_ok(seq_hit_spec(objs, ray, t_min, t_max), t_min, t_max),
{
    lemma_seq_hit_closest(objs, ray, t_min, t_max);
    match seq_hit_spec(objs, ray, t_min, t_max) {
        None => {},
        Some(h) => {
            let i = choose|i: int|
                0 <= i < objs.len() && objs[i].hit_spec(ray, t_min, t_max) == Some(h);
            objs[i].lemma_hit_valid(ray, t_min, t_max);
        },
    }
}

/// Walk `objs`, keeping the closest hit so far and calling each child with
/// the tightening upper bound.
pub fn hit_scan<T: Hittable>(objs: &Vec<T>, ray: &Ray, t_min: i128, t_max: i128) -> (r: Option<
    HitRecord,
>)
    requires
        all_wf(objs@),
        ray_wf(ray@),
        0 <= t_min <= t_max <= T_LIMIT,
    ensures
        opt_hit_view(r) == seq_hit_spec(objs@, ray@, t_min as int, t_max as int),
{
    let mut temp: Option<HitRecord> = None;
    let mut closest: i128 = t_max;
    let n = objs.len();
    let mut i: usize = 0;
    proof {
        assert(objs@.skip(0) =~= objs@);
    }
    while i < n
        invariant
            i <= n,
            n == objs.len(),
            all_wf(objs@),
            ray_wf(ray@),
            0 <= t_min <= closest <= t_max <= T_LIMIT,
            match temp {
                Some(h) => h@.t == closest as int && t_min < closest,
                None => closest == t_max,
            },
            scan_hit(objs@.skip(i as int), ray@, t_min as int, closest as int, opt_hit_view(temp))
                == seq_hit_spec(objs@, ray@, t_min as int, t_max as int),
        decreases n - i,
    {
        assert(objs@[i as int].wf());
        let ghost pre = objs@.skip(i as int);
        assert(pre[0] == objs@[i as int]);
        assert(pre.drop_first() =~= objs@.skip(i as int + 1));
        let rec = objs[i].hit(ray, t_min, closest);
        match rec {
            Some(h) => {
                proof {
                    objs@[i as int].lemma_hit_valid(ray@, t_min as int, closest as int);
                }
                closest = h.t;
                temp = Some(h);
            },
            None => {},
        }
        i = i + 1;
    }
    proof {
        assert(objs@.skip(n as int) =~= Seq::<T>::empty());
    }
    temp
}

} // verus!
