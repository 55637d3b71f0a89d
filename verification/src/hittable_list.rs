//! The scene aggregate: an ordered collection of spheres, scanned
//! exhaustively for the nearest intersection.
//!
//! `scan_hit` mirrors the scan exactly; the characterization lemma then
//! shows the scan returns a hit of minimal parameter among all members'
//! hits over the full window — so the result does not depend on the order
//! in which overlapping spheres were inserted.

use vstd::prelude::*;
use crate::fixed::{FX_ONE, COORD_LIMIT, lemma_sqrt_floor_exists, lemma_tdiv_ordered};
use crate::sphere::{
    Sphere, sphere_wf, sphere_hit, discriminant_of, disc_sqrt_of, quad_half_b, quad_a,
};
use crate::ray::{Ray, ray_wf};
use crate::hittable::{HitRecord, hit_record_wf, Hittable};

verus! {

pub struct HittableList {
    pub objects: Vec<Sphere>,
}

pub open spec fn list_wf(l: HittableList) -> bool {
    forall|i: int| 0 <= i < l.objects@.len() ==> sphere_wf(#[trigger] l.objects@[i])
}

/// The nearest-hit scan, in insertion order: each accepted hit shrinks
/// the upper bound of the parameter window for the members after it.
pub open spec fn scan_hit(objs: Seq<Sphere>, r: Ray, lo: int, hi: int) -> Option<HitRecord>
    decreases objs.len(),
{
    if objs.len() == 0 {
        None::<HitRecord>
    } else {
        let prior = scan_hit(objs.drop_last(), r, lo, hi);
        let window_hi = match prior {
            Some(h) => h.t as int,
            None => hi,
        };
        match sphere_hit(objs.last(), r, lo, window_hi) {
            Some(h2) => Some(h2),
            None => prior,
        }
    }
}

impl HittableList {
    pub fn new() -> (r: HittableList)
        ensures
            r.objects@ == Seq::<Sphere>::empty(),
    {
        HittableList { objects: Vec::new() }
    }

    pub fn add(&mut self, object: Sphere)
        ensures
            final(self).objects@ == old(self).objects@.push(object),
    {
        self.objects.push(object);
    }

    /// The nearest intersection of the ray with any member, inside the
    /// open window `(t_min, t_max)`: a hit of minimal parameter among the
    /// members' hits, or nothing when every member misses.
    pub fn hit(&self, r: &Ray, t_min: i64, t_max: i64) -> (res: Option<HitRecord>)
        requires
            list_wf(*self),
            ray_wf(*r),
            0 <= t_min,
            t_min <= t_max,
            t_max <= COORD_LIMIT,
        ensures
            res == scan_hit(self.objects@, *r, t_min as int, t_max as int),
            (res matches Some(h) ==> hit_record_wf(h) && t_min < h.t < t_max),
            res is None ==> forall|j: int|
                0 <= j < self.objects@.len() ==> sphere_hit(
                    #[trigger] self.objects@[j],
                    *r,
                    t_min as int,
                    t_max as int,
                ) is None,
            (res matches Some(h) ==> (exists|j: int|
                0 <= j < self.objects@.len() && sphere_hit(
                    #[trigger] self.objects@[j],
                    *r,
                    t_min as int,
                    t_max as int,
                ) == Some(h)) && (forall|j: int|
                0 <= j < self.objects@.len() ==> (sphere_hit(
                    #[trigger] self.objects@[j],
                    *r,
                    t_min as int,
                    t_max as int,
                ) matches Some(h2) ==> h.t <= h2.t))),
    {
        let mut temp_rec: Option<HitRecord> = None;
        let mut closest_so_far: i64 = t_max;
        let n = self.objects.len();
        let mut i: usize = 0;
        while i < n
            invariant
                0 <= i <= n,
                n == self.objects@.len(),
                list_wf(*self),
                ray_wf(*r),
                0 <= t_min <= t_max <= COORD_LIMIT,
                temp_rec == scan_hit(
                    self.objects@.take(i as int),
                    *r,
                    t_min as int,
                    t_max as int,
                ),
                match temp_rec {
                    Some(h) => closest_so_far == h.t && hit_record_wf(h) && t_min < h.t < t_max,
                    None => closest_so_far == t_max,
                },
            decreases n - i,
        {
            let obj = &self.objects[i];
            let this_hit = obj.hit(r, t_min, closest_so_far);
            proof {
                assert(self.objects@.take(i as int + 1).drop_last() =~= self.objects@.take(
                    i as int,
                ));
                assert(self.objects@.take(i as int + 1).last() == self.objects@[i as int]);
            }
            match this_hit {
                Some(rec2) => {
                    closest_so_far = rec2.t;
                    temp_rec = Some(rec2);
                },
                None => {},
            }
            i = i + 1;
        }
        proof {
            assert(self.objects@.take(n as int) =~= self.objects@);
            lemma_scan_hit_characterization(self.objects@, *r, t_min as int, t_max as int);
        }
        temp_rec
    }
}

impl Hittable for HittableList {
    open spec fn shape_wf(&self) -> bool {
        list_wf(*self)
    }

    open spec fn hit_spec(&self, r: Ray, lo: int, hi: int) -> Option<HitRecord> {
        scan_hit(self.objects@, r, lo, hi)
    }

    fn hit(&self, r: &Ray, t_min: i64, t_max: i64) -> (res: Option<HitRecord>) {
        HittableList::hit(self, r, t_min, t_max)
    }
}

/// Shrinking only the upper end of the window cannot change which hit a
/// sphere reports, except to hide hits at or beyond the new end.
proof fn lemma_sphere_hit_window(s: Sphere, r: Ray, lo: int, hi1: int, hi2: int)
    requires
        quad_a(r) >= 1,
        hi1 <= hi2,
        -COORD_LIMIT <= lo,
        hi2 <= COORD_LIMIT,
    ensures
        (sphere_hit(s, r, lo, hi1) matches Some(h) ==> sphere_hit(s, r, lo, hi2) == Some(h)),
        sphere_hit(s, r, lo, hi2) is None ==> sphere_hit(s, r, lo, hi1) is None,
        (sphere_hit(s, r, lo, hi2) matches Some(h) ==> sphere_hit(s, r, lo, hi1) is None
            ==> h.t >= hi1),
{
    if discriminant_of(s, r) >= 0 {
        lemma_sqrt_floor_exists(discriminant_of(s, r) * (FX_ONE as int));
        let sq = disc_sqrt_of(s, r);
        let hb = quad_half_b(s, r);
        let a = quad_a(r);
        assert(sq >= 0);
        lemma_tdiv_ordered((-hb - sq) * (FX_ONE as int), (-hb + sq) * (FX_ONE as int), a);
    }
}

/// The scan returns a hit of minimal parameter among the members' hits
/// over the full window, or nothing when every member misses.
pub proof fn lemma_scan_hit_characterization(objs: Seq<Sphere>, r: Ray, lo: int, hi: int)
    requires
        quad_a(r) >= 1,
        -COORD_LIMIT <= lo,
        hi <= COORD_LIMIT,
    ensures
        scan_hit(objs, r, lo, hi) is None ==> forall|j: int|
            0 <= j < objs.len() ==> sphere_hit(#[trigger] objs[j], r, lo, hi) is None,
        (scan_hit(objs, r, lo, hi) matches Some(h) ==> lo < h.t < hi && (exists|j: int|
            0 <= j < objs.len() && sphere_hit(#[trigger] objs[j], r, lo, hi) == Some(h)) && (
        forall|j: int|
            0 <= j < objs.len() ==> (sphere_hit(#[trigger] objs[j], r, lo, hi) matches Some(h2)
                ==> h.t <= h2.t))),
    decreases objs.len(),
{
    if objs.len() > 0 {
        let front = objs.drop_last();
        let s = objs.last();
        lemma_scan_hit_characterization(front, r, lo, hi);
        let prior = scan_hit(front, r, lo, hi);
        assert(forall|j: int| 0 <= j < front.len() ==> front[j] == #[trigger] objs[j]);
        match prior {
            Some(hp) => {
                assert(lo < hp.t < hi);
                match sphere_hit(s, r, lo, hp.t as int) {
                    Some(h2) => {
                        lemma_sphere_hit_window(s, r, lo, hp.t as int, hi);
                        assert(sphere_hit(s, r, lo, hi) == Some(h2));
                        assert(lo < h2.t < hp.t);
                        assert(sphere_hit(objs[objs.len() - 1], r, lo, hi) == Some(h2));
                    },
                    None => {
                        lemma_sphere_hit_window(s, r, lo, hp.t as int, hi);
                        let wit = choose|j: int|
                            0 <= j < front.len() && sphere_hit(#[trigger] front[j], r, lo, hi)
                                == Some(hp);
                        assert(sphere_hit(objs[wit], r, lo, hi) == Some(hp));
                    },
                }
            },
            None => {
                match sphere_hit(s, r, lo, hi) {
                    Some(h2) => {
                        assert(sphere_hit(objs[objs.len() - 1], r, lo, hi) == Some(h2));
                    },
                    None => {},
                }
            },
        }
    }
}

/// With two spheres along one ray, the reported parameter is that of the
/// nearer intersection, whichever order the spheres were inserted in.
#[verifier::rlimit(60)]
pub proof fn lemma_scan_order_independent(s1: Sphere, s2: Sphere, r: Ray, lo: int, hi: int)
    requires
        quad_a(r) >= 1,
        -COORD_LIMIT <= lo,
        hi <= COORD_LIMIT,
    ensures
        scan_hit(seq![s1, s2], r, lo, hi) is Some <==> scan_hit(seq![s2, s1], r, lo, hi)
            is Some,
        (scan_hit(seq![s1, s2], r, lo, hi) matches Some(h1) ==> (scan_hit(
            seq![s2, s1],
            r,
            lo,
            hi,
        ) matches Some(h2) ==> h1.t == h2.t)),
{
    let fwd = seq![s1, s2];
    let bwd = seq![s2, s1];
    lemma_scan_hit_characterization(fwd, r, lo, hi);
    lemma_scan_hit_characterization(bwd, r, lo, hi);
    assert(fwd.len() == 2 && bwd.len() == 2);
    assert(fwd[0] == s1 && fwd[1] == s2 && bwd[0] == s2 && bwd[1] == s1);
    match scan_hit(fwd, r, lo, hi) {
        Some(h1) => {
            let j1 = choose|j: int|
                0 <= j < fwd.len() && sphere_hit(#[trigger] fwd[j], r, lo, hi) == Some(h1);
            assert(j1 == 0 || j1 == 1);
            match scan_hit(bwd, r, lo, hi) {
                Some(h2) => {
                    let j2 = choose|j: int|
                        0 <= j < bwd.len() && sphere_hit(#[trigger] bwd[j], r, lo, hi) == Some(
                            h2,
                        );
                    assert(j2 == 0 || j2 == 1);
                    if j2 == 0 {
                        assert(sphere_hit(fwd[1], r, lo, hi) == Some(h2));
                    } else {
                        assert(sphere_hit(fwd[0], r, lo, hi) == Some(h2));
                    }
                    if j1 == 0 {
                        assert(sphere_hit(bwd[1], r, lo, hi) == Some(h1));
                    } else {
                        assert(sphere_hit(bwd[0], r, lo, hi) == Some(h1));
                    }
                    assert(h1.t <= h2.t);
                    assert(h2.t <= h1.t);
                },
                None => {
                    if j1 == 0 {
                        assert(sphere_hit(bwd[1], r, lo, hi) == Some(h1));
                    } else {
                        assert(sphere_hit(bwd[0], r, lo, hi) == Some(h1));
                    }
                    assert(false);
                },
            }
        },
        None => {
            match scan_hit(bwd, r, lo, hi) {
                Some(h2) => {
                    let j2 = choose|j: int|
                        0 <= j < bwd.len() && sphere_hit(#[trigger] bwd[j], r, lo, hi) == Some(
                            h2,
                        );
                    assert(j2 == 0 || j2 == 1);
                    if j2 == 0 {
                        assert(sphere_hit(fwd[1], r, lo, hi) == Some(h2));
                    } else {
                        assert(sphere_hit(fwd[0], r, lo, hi) == Some(h2));
                    }
                    assert(false);
                },
                None => {},
            }
        },
    }
}

} // verus!
