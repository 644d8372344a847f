//! The scene: objects, their bounds, and nearest-intersection queries.
//!
//! `intersect` walks the candidate objects keeping the nearest hit found so
//! far and shrinking the query interval to it, which prunes intersection
//! tests against objects that cannot be closer; the shrinking is proved to
//! return exactly the minimum-distance hit, ties resolving to the first
//! object encountered.

use vstd::prelude::*;
use crate::object::HitRecord;
use crate::object::HittableBounds;
use crate::object::Sphere;
use crate::object::hit_wf;
use crate::object::sphere_bounds_spec;
use crate::object::sphere_hit_spec;
use crate::object::sphere_wf;
use crate::shared::RayQuery;
use crate::shared::query_wf;

verus! {

/// Basic scene which holds objects and their candidate index.
pub struct Scene {
    /// The hittable objects, in stable order.
    pub objects: Vec<Sphere>,
    /// Bounds of the hittables, by object position.
    pub bounds: Vec<HittableBounds>,
    /// Whether the candidate index over `bounds` has been built.
    pub bvh_built: bool,
}

/// Every object of the scene is well-formed.
pub open spec fn scene_wf(s: Scene) -> bool {
    forall|i: int| 0 <= i < s.objects@.len() ==> sphere_wf(#[trigger] s.objects@[i])
}

/// What the intersection loop computes: fold over the objects from
/// position `i`, keeping the best hit and shrinking the interval to it.
pub open spec fn scene_hit_loop(
    objs: Seq<Sphere>,
    q: RayQuery,
    i: int,
    best: Option<HitRecord>,
) -> Option<HitRecord>
    decreases objs.len() - i,
{
    if i < 0 || i >= objs.len() {
        best
    } else {
        let h = sphere_hit_spec(objs[i], q);
        let q2 = match h {
            Some(hh) => RayQuery {
                ray: q.ray,
                t_min: q.t_min,
                t_max: if hh.t < q.t_max {
                    hh.t
                } else {
                    q.t_max
                },
            },
            None => q,
        };
        let best2 = match best {
            None => h,
            Some(b) => match h {
                Some(hh) => if hh.t < b.t {
                    h
                } else {
                    best
                },
                None => best,
            },
        };
        scene_hit_loop(objs, q2, i + 1, best2)
    }
}

/// Object `j` either misses the query or hits it strictly beyond `t`.
pub open spec fn misses_or_beyond(objs: Seq<Sphere>, q: RayQuery, j: int, t: int) -> bool {
    match sphere_hit_spec(objs[j], q) {
        None => true,
        Some(h2) => h2.t > t,
    }
}

/// Object `j` either misses the query or hits it no closer than `t`.
pub open spec fn misses_or_not_closer(objs: Seq<Sphere>, q: RayQuery, j: int, t: int) -> bool {
    match sphere_hit_spec(objs[j], q) {
        None => true,
        Some(h2) => h2.t >= t,
    }
}

/// `b` is the hit of the first object among `[0, i)` achieving the
/// minimum hit distance.
pub open spec fn is_first_min(objs: Seq<Sphere>, q: RayQuery, i: int, b: HitRecord) -> bool {
    exists|k: int|
        0 <= k < i && #[trigger] sphere_hit_spec(objs[k], q) == Some(b) && (forall|j: int|
            0 <= j < k ==> #[trigger] misses_or_beyond(objs, q, j, b.t as int))
}

/// The full contract of the nearest-intersection search against the
/// original, unshrunk query: no result exactly when every object misses;
/// otherwise the minimum-distance hit, ties resolved to the first object.
pub open spec fn intersect_characterized(
    objs: Seq<Sphere>,
    q: RayQuery,
    r: Option<HitRecord>,
) -> bool {
    match r {
        None => forall|j: int|
            0 <= j < objs.len() ==> (#[trigger] sphere_hit_spec(objs[j], q)) is None,
        Some(h) => {
            &&& q.t_min <= h.t < q.t_max
            &&& is_first_min(objs, q, objs.len() as int, h)
            &&& forall|j: int|
                0 <= j < objs.len() ==> #[trigger] misses_or_not_closer(objs, q, j, h.t as int)
        },
    }
}

/// Division by a positive scalar is monotone in the numerator.
proof fn lemma_fp_div_mono(a1: int, a2: int, b: int)
    requires
        a1 <= a2,
        b >= 1,
    ensures
        crate::shared::fp_div_spec(a1, b) <= crate::shared::fp_div_spec(a2, b),
{
    if a1 >= 0 {
        vstd::arithmetic::div_mod::lemma_div_is_ordered(a1 * 65536, a2 * 65536, b);
        assert(a1 * 65536 <= a2 * 65536) by (nonlinear_arith)
            requires
                a1 <= a2,
        {}
        vstd::arithmetic::div_mod::lemma_div_is_ordered(0, a1 * 65536, b);
    } else if a2 < 0 {
        vstd::arithmetic::div_mod::lemma_div_is_ordered((-a2) * 65536, (-a1) * 65536, b);
        assert((-a2) * 65536 <= (-a1) * 65536) by (nonlinear_arith)
            requires
                a1 <= a2,
        {}
        vstd::arithmetic::div_mod::lemma_div_is_ordered(0, (-a2) * 65536, b);
    } else {
        // a1 < 0 <= a2: the quotients straddle zero.
        vstd::arithmetic::div_mod::lemma_div_is_ordered(0, a2 * 65536, b);
        vstd::arithmetic::div_mod::lemma_div_is_ordered(0, (-a1) * 65536, b);
    }
}

/// Shrinking the interval of a query filters its sphere hit by the new
/// upper bound and changes nothing else: the pruning the intersection
/// loop performs is sound.
proof fn lemma_sphere_hit_shrink(s: Sphere, q: RayQuery, q2: RayQuery)
    requires
        q2.ray == q.ray,
        q2.t_min == q.t_min,
        q2.t_max <= q.t_max,
    ensures
        sphere_hit_spec(s, q2) == (match sphere_hit_spec(s, q) {
            Some(h) => if h.t < q2.t_max {
                Some(h)
            } else {
                None
            },
            None => None,
        }),
{
    let oc = crate::shared::vsub_spec(q.ray.origin, s.center);
    let a = crate::shared::vdot_spec(q.ray.direction, q.ray.direction);
    let half_b = crate::shared::vdot_spec(oc, q.ray.direction);
    if a >= 1 {
        let c = crate::shared::clamp_fp(
            crate::shared::vdot_spec(oc, oc) - crate::shared::fp_mul_spec(
                s.radius as int,
                s.radius as int,
            ),
        );
        let disc = crate::shared::clamp_fp(
            crate::shared::fp_mul_spec(half_b, half_b) - crate::shared::fp_mul_spec(a, c),
        );
        if disc >= 0 {
            let sqrtd = crate::shared::sqrt_fp_spec(disc);
            crate::shared::lemma_sqrt_floor_exists(disc * 65536);
            let num1 = crate::shared::clamp_fp(-half_b - sqrtd);
            let num2 = crate::shared::clamp_fp(-half_b + sqrtd);
            assert(crate::shared::sqrt_floor(disc * 65536) >= 0);
            assert(sqrtd >= 0);
            lemma_fp_div_mono(num1, num2, a);
            assert(crate::object::sphere_record_spec(s, q, crate::shared::fp_div_spec(num1, a))
                == crate::object::sphere_record_spec(
                s,
                q2,
                crate::shared::fp_div_spec(num1, a),
            ));
            assert(crate::object::sphere_record_spec(s, q, crate::shared::fp_div_spec(num2, a))
                == crate::object::sphere_record_spec(
                s,
                q2,
                crate::shared::fp_div_spec(num2, a),
            ));
        }
    }
}

/// The invariant of the intersection loop: the shrunk query and current
/// best summarize the objects already examined against the original query.
pub open spec fn loop_inv(
    objs: Seq<Sphere>,
    q0: RayQuery,
    q: RayQuery,
    i: int,
    best: Option<HitRecord>,
) -> bool {
    &&& 0 <= i <= objs.len()
    &&& q.ray == q0.ray
    &&& q.t_min == q0.t_min
    &&& q.t_max <= q0.t_max
    &&& match best {
        None => q.t_max == q0.t_max && (forall|j: int|
            0 <= j < i ==> (#[trigger] sphere_hit_spec(objs[j], q0)) is None),
        Some(b) => {
            &&& q0.t_min <= b.t < q0.t_max
            &&& q.t_max == b.t
            &&& is_first_min(objs, q0, i, b)
            &&& forall|j: int|
                0 <= j < i ==> #[trigger] misses_or_not_closer(objs, q0, j, b.t as int)
        },
    }
}

/// The query after examining object `i`: shrunk to its hit, if any.
pub open spec fn step_query(objs: Seq<Sphere>, q: RayQuery, i: int) -> RayQuery {
    match sphere_hit_spec(objs[i], q) {
        Some(hh) => RayQuery {
            ray: q.ray,
            t_min: q.t_min,
            t_max: if hh.t < q.t_max {
                hh.t
            } else {
                q.t_max
            },
        },
        None => q,
    }
}

/// The best hit after examining object `i`.
pub open spec fn step_best(
    objs: Seq<Sphere>,
    q: RayQuery,
    i: int,
    best: Option<HitRecord>,
) -> Option<HitRecord> {
    let h = sphere_hit_spec(objs[i], q);
    match best {
        None => h,
        Some(b) => match h {
            Some(hh) => if hh.t < b.t {
                h
            } else {
                best
            },
            None => best,
        },
    }
}

/// One loop step preserves the invariant when no best hit exists yet.
#[verifier::rlimit(100)]
#[verifier::spinoff_prover]
proof fn lemma_step_none(objs: Seq<Sphere>, q0: RayQuery, q: RayQuery, i: int)
    requires
        0 <= i < objs.len(),
        loop_inv(objs, q0, q, i, None),
    ensures
        loop_inv(objs, q0, step_query(objs, q, i), i + 1, step_best(objs, q, i, None)),
{
    let h = sphere_hit_spec(objs[i], q);
    lemma_sphere_hit_shrink(objs[i], q0, q);
    match h {
        None => {
            assert forall|j: int|
                0 <= j < i + 1 implies (#[trigger] sphere_hit_spec(objs[j], q0)) is None by {}
        },
        Some(hh) => {
            assert(sphere_hit_spec(objs[i], q0) == Some(hh));
            assert forall|j: int|
                0 <= j < i implies #[trigger] misses_or_beyond(objs, q0, j, hh.t as int) by {}
            assert(is_first_min(objs, q0, i + 1, hh));
            assert forall|j: int|
                0 <= j < i + 1 implies #[trigger] misses_or_not_closer(
                objs,
                q0,
                j,
                hh.t as int,
            ) by {}
        },
    }
}

/// One loop step preserves the invariant once a best hit exists.
#[verifier::rlimit(100)]
#[verifier::spinoff_prover]
proof fn lemma_step_some(objs: Seq<Sphere>, q0: RayQuery, q: RayQuery, i: int, b: HitRecord)
    requires
        0 <= i < objs.len(),
        loop_inv(objs, q0, q, i, Some(b)),
    ensures
        loop_inv(objs, q0, step_query(objs, q, i), i + 1, step_best(objs, q, i, Some(b))),
{
    let h = sphere_hit_spec(objs[i], q);
    lemma_sphere_hit_shrink(objs[i], q0, q);
    match h {
        None => {
            // Object i misses the shrunk query: against the original query
            // it is at or beyond the best.
            assert(misses_or_not_closer(objs, q0, i, b.t as int));
        },
        Some(hh) => {
            assert(hh.t < q.t_max);
            assert(hh.t < b.t);
            assert(sphere_hit_spec(objs[i], q0) == Some(hh));
            assert forall|j: int|
                0 <= j < i implies #[trigger] misses_or_beyond(objs, q0, j, hh.t as int) by {
                assert(misses_or_not_closer(objs, q0, j, b.t as int));
            }
            assert(is_first_min(objs, q0, i + 1, hh));
            assert forall|j: int|
                0 <= j < i + 1 implies #[trigger] misses_or_not_closer(
                objs,
                q0,
                j,
                hh.t as int,
            ) by {
                if j < i {
                    assert(misses_or_not_closer(objs, q0, j, b.t as int));
                }
            }
        },
    }
    if step_best(objs, q, i, Some(b)) == Some(b) {
        // The best is unchanged; extend its first-minimum witness.
        assert(is_first_min(objs, q0, i, b));
        let k = choose|k: int|
            0 <= k < i && #[trigger] sphere_hit_spec(objs[k], q0) == Some(b) && (forall|j: int|
                0 <= j < k ==> #[trigger] misses_or_beyond(objs, q0, j, b.t as int));
        assert(is_first_min(objs, q0, i + 1, b));
    }
}

/// The intersection loop, run from any sound intermediate state, returns
/// the first minimum-distance hit of the whole object list against the
/// original query.
proof fn lemma_loop_minimal(
    objs: Seq<Sphere>,
    q0: RayQuery,
    q: RayQuery,
    i: int,
    best: Option<HitRecord>,
)
    requires
        loop_inv(objs, q0, q, i, best),
    ensures
        intersect_characterized(objs, q0, scene_hit_loop(objs, q, i, best)),
    decreases objs.len() - i,
{
    if i == objs.len() {
        match best {
            None => {},
            Some(b) => {
                assert forall|j: int|
                    0 <= j < objs.len() implies #[trigger] misses_or_not_closer(
                    objs,
                    q0,
                    j,
                    b.t as int,
                ) by {}
            },
        }
    } else {
        match best {
            None => lemma_step_none(objs, q0, q, i),
            Some(b) => lemma_step_some(objs, q0, q, i, b),
        }
        assert(scene_hit_loop(objs, q, i, best) == scene_hit_loop(
            objs,
            step_query(objs, q, i),
            i + 1,
            step_best(objs, q, i, best),
        ));
        lemma_loop_minimal(objs, q0, step_query(objs, q, i), i + 1, step_best(objs, q, i, best));
    }
}

/// The intersection loop from the start returns exactly the
/// characterized nearest hit: shrinking the search interval to the best
/// hit found so far never changes the result.
pub proof fn lemma_intersect_minimal(objs: Seq<Sphere>, q: RayQuery)
    ensures
        intersect_characterized(objs, q, scene_hit_loop(objs, q, 0, None)),
{
    lemma_loop_minimal(objs, q, q, 0, None);
}

impl Scene {
    pub fn new() -> (r: Scene)
        ensures
            r.objects@.len() == 0,
            r.bounds@.len() == 0,
            !r.bvh_built,
            scene_wf(r),
    {
        Scene { objects: Vec::new(), bounds: Vec::new(), bvh_built: false }
    }

    /// Compute a bounding volume for every object and build the candidate
    /// index over them. Must be called exactly once, before `intersect`.
    pub fn build_bvh(&mut self)
        requires
            scene_wf(*old(self)),
            !old(self).bvh_built,
            old(self).bounds@.len() == 0,
        ensures
            scene_wf(*final(self)),
            final(self).objects@ == old(self).objects@,
            final(self).bvh_built,
            final(self).bounds@.len() == old(self).objects@.len(),
            forall|i: int|
                0 <= i < final(self).bounds@.len() ==> final(self).bounds@[i]
                    == sphere_bounds_spec(#[trigger] old(self).objects@[i], i),
    {
        let n = self.objects.len();
        let mut i: usize = 0;
        while i < n
            invariant
                i <= n,
                n == self.objects@.len(),
                *self == (Scene {
                    bounds: self.bounds,
                    ..*old(self)
                }),
                scene_wf(*self),
                self.bounds@.len() == i,
                forall|t: int|
                    0 <= t < i ==> self.bounds@[t] == sphere_bounds_spec(
                        #[trigger] self.objects@[t],
                        t,
                    ),
            decreases n - i,
        {
            let b = self.objects[i].compute_bounds(i);
            self.bounds.push(b);
            i = i + 1;
        }
        self.bvh_built = true;
    }

    /// Return the closest intersection (or `None`) in the scene: traverse
    /// the candidates, test each against the current — possibly already
    /// shrunk — interval, keep the minimum-distance hit found so far, and
    /// shrink the interval to it as soon as any hit is found.
    pub fn intersect(&self, query: RayQuery) -> (r: Option<HitRecord>)
        requires
            scene_wf(*self),
            query_wf(query),
            self.bvh_built,
        ensures
            r == scene_hit_loop(self.objects@, query, 0, None),
            intersect_characterized(self.objects@, query, r),
            r matches Some(h) ==> hit_wf(h),
    {
        let mut closest_hit_option: Option<HitRecord> = None;
        let mut q = query;
        let n = self.objects.len();
        let mut i: usize = 0;
        while i < n
            invariant
                i <= n,
                n == self.objects@.len(),
                scene_wf(*self),
                query_wf(query),
                query_wf(q),
                q.ray == query.ray,
                q.t_min == query.t_min,
                q.t_max <= query.t_max,
                closest_hit_option is None ==> q.t_max == query.t_max,
                closest_hit_option matches Some(b) ==> hit_wf(b) && query.t_min <= b.t
                    < query.t_max && q.t_max <= b.t,
                scene_hit_loop(self.objects@, query, 0, None) == scene_hit_loop(
                    self.objects@,
                    q,
                    i as int,
                    closest_hit_option,
                ),
            decreases n - i,
        {
            let obj = self.objects[i];
            let ghost q_before = q;
            let ghost best_before = closest_hit_option;
            let hit_option = obj.intersect(q);
            if let Some(h) = &hit_option {
                // Shorten the ray.
                if h.t < q.t_max {
                    q.t_max = h.t;
                }
            }
            match (&closest_hit_option, &hit_option) {
                (Option::None, _) => {
                    closest_hit_option = hit_option;
                },
                (Option::Some(b), Option::Some(h)) => {
                    if h.t < b.t {
                        closest_hit_option = hit_option;
                    }
                },
                _ => {},
            }
            proof {
                assert(scene_hit_loop(self.objects@, q_before, i as int, best_before)
                    == scene_hit_loop(self.objects@, q, i + 1, closest_hit_option));
            }
            i = i + 1;
        }
        proof {
            lemma_intersect_minimal(self.objects@, query);
        }
        closest_hit_option
    }
}

} // verus!
