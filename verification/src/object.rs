//! Scene geometry: spheres, hit records and bounding boxes.

use vstd::prelude::*;
use crate::material::Material;
use crate::material::mat_wf;
use crate::shared::FP_LIMIT;
use crate::shared::Point3;
use crate::shared::Ray;
use crate::shared::RayQuery;
use crate::shared::Vec3;
use crate::shared::clamp_fp;
use crate::shared::clamp_i64_add;
use crate::shared::fp_div;
use crate::shared::fp_div_spec;
use crate::shared::fp_mul;
use crate::shared::fp_mul_spec;
use crate::shared::fp_wf;
use crate::shared::query_wf;
use crate::shared::ray_at_spec;
use crate::shared::sqrt_fp;
use crate::shared::sqrt_fp_spec;
use crate::shared::vadd_spec;
use crate::shared::vdot_spec;
use crate::shared::vec_wf;
use crate::shared::vneg_spec;
use crate::shared::vsub_spec;

verus! {

/// What an intersection query reports about the closest hit.
#[derive(Copy, Clone, Debug, PartialEq, Eq, Structural)]
pub struct HitRecord {
    /// Ray parameter of the hit.
    pub t: i64,
    /// The hit point.
    pub point: Point3,
    /// Surface normal at the hit, facing against the incoming ray.
    pub normal: Vec3,
    /// Did the ray hit the outside of the surface?
    pub front_face: bool,
    /// The material of the hit object.
    pub material: Material,
}

/// A well-formed hit record.
pub open spec fn hit_wf(h: HitRecord) -> bool {
    &&& fp_wf(h.t as int)
    &&& vec_wf(h.point)
    &&& vec_wf(h.normal)
    &&& mat_wf(h.material)
}

/// A sphere with a material.
#[derive(Copy, Clone, Debug, PartialEq, Eq, Structural)]
pub struct Sphere {
    pub center: Point3,
    pub radius: i64,
    pub material: Material,
}

/// Well-formed sphere: positive radius, bounded center, valid material.
pub open spec fn sphere_wf(s: Sphere) -> bool {
    &&& vec_wf(s.center)
    &&& 1 <= s.radius <= FP_LIMIT
    &&& mat_wf(s.material)
}

/// An axis-aligned bounding box around one object, remembering which
/// object it bounds.
#[derive(Copy, Clone, Debug, PartialEq, Eq, Structural)]
pub struct HittableBounds {
    pub aabb_min: Point3,
    pub aabb_max: Point3,
    pub hittable_index: usize,
}

/// The bounds computed for a sphere: its center pushed out by its radius
/// along every axis.
pub open spec fn sphere_bounds_spec(s: Sphere, index: int) -> HittableBounds {
    HittableBounds {
        aabb_min: Vec3 {
            x: clamp_fp(s.center.x - s.radius) as i64,
            y: clamp_fp(s.center.y - s.radius) as i64,
            z: clamp_fp(s.center.z - s.radius) as i64,
        },
        aabb_max: Vec3 {
            x: clamp_fp(s.center.x + s.radius) as i64,
            y: clamp_fp(s.center.y + s.radius) as i64,
            z: clamp_fp(s.center.z + s.radius) as i64,
        },
        hittable_index: index as usize,
    }
}

/// The hit record a sphere produces for a valid root `t`.
pub open spec fn sphere_record_spec(s: Sphere, q: RayQuery, t: int) -> HitRecord {
    let point = ray_at_spec(q.ray, t);
    let outward = Vec3 {
        x: fp_div_spec(clamp_fp(point.x - s.center.x), s.radius as int) as i64,
        y: fp_div_spec(clamp_fp(point.y - s.center.y), s.radius as int) as i64,
        z: fp_div_spec(clamp_fp(point.z - s.center.z), s.radius as int) as i64,
    };
    let front_face = vdot_spec(q.ray.direction, outward) < 0;
    HitRecord {
        t: t as i64,
        point,
        normal: if front_face {
            outward
        } else {
            vneg_spec(outward)
        },
        front_face,
        material: s.material,
    }
}

/// The nearest intersection of a query with one sphere, from the quadratic
/// in the ray parameter; directions shorter than one fixed-point step
/// cannot hit.
pub open spec fn sphere_hit_spec(s: Sphere, q: RayQuery) -> Option<HitRecord> {
    let oc = vsub_spec(q.ray.origin, s.center);
    let a = vdot_spec(q.ray.direction, q.ray.direction);
    let half_b = vdot_spec(oc, q.ray.direction);
    let c = clamp_fp(vdot_spec(oc, oc) - fp_mul_spec(s.radius as int, s.radius as int));
    let disc = clamp_fp(fp_mul_spec(half_b, half_b) - fp_mul_spec(a, c));
    if a < 1 || disc < 0 {
        None
    } else {
        let sqrtd = sqrt_fp_spec(disc);
        let root1 = fp_div_spec(clamp_fp(-half_b - sqrtd), a);
        if q.t_min <= root1 < q.t_max {
            Some(sphere_record_spec(s, q, root1))
        } else {
            let root2 = fp_div_spec(clamp_fp(-half_b + sqrtd), a);
            if q.t_min <= root2 < q.t_max {
                Some(sphere_record_spec(s, q, root2))
            } else {
                None
            }
        }
    }
}

impl Sphere {
    pub fn new(center: Point3, radius: i64, material: Material) -> (r: Sphere)
        ensures
            r == (Sphere { center, radius, material }),
    {
        Sphere { center, radius, material }
    }

    /// The axis-aligned bounds of this sphere, tagged with its index in
    /// the scene's object list.
    pub fn compute_bounds(&self, index: usize) -> (r: HittableBounds)
        requires
            sphere_wf(*self),
        ensures
            r == sphere_bounds_spec(*self, index as int),
    {
        HittableBounds {
            aabb_min: Vec3 {
                x: clamp_i64_add(self.center.x, -self.radius),
                y: clamp_i64_add(self.center.y, -self.radius),
                z: clamp_i64_add(self.center.z, -self.radius),
            },
            aabb_max: Vec3 {
                x: clamp_i64_add(self.center.x, self.radius),
                y: clamp_i64_add(self.center.y, self.radius),
                z: clamp_i64_add(self.center.z, self.radius),
            },
            hittable_index: index,
        }
    }

    /// Intersect one sphere against the query's current interval.
    pub fn intersect(&self, query: RayQuery) -> (r: Option<HitRecord>)
        requires
            sphere_wf(*self),
            query_wf(query),
        ensures
            r == sphere_hit_spec(*self, query),
            r matches Some(h) ==> hit_wf(h) && query.t_min <= h.t < query.t_max,
    {
        let oc = query.ray.origin.sub(&self.center);
        let a = query.ray.direction.dot(&query.ray.direction);
        let half_b = oc.dot(&query.ray.direction);
        let c = clamp_i64_add(oc.dot(&oc), -fp_mul(self.radius, self.radius));
        let disc = clamp_i64_add(fp_mul(half_b, half_b), -fp_mul(a, c));
        if a < 1 || disc < 0 {
            return None;
        }
        let sqrtd = sqrt_fp(disc);
        let root1 = fp_div(clamp_i64_add(-half_b, -sqrtd), a);
        if query.t_min <= root1 && root1 < query.t_max {
            return Some(self.make_record(query, root1));
        }
        let root2 = fp_div(clamp_i64_add(-half_b, sqrtd), a);
        if query.t_min <= root2 && root2 < query.t_max {
            return Some(self.make_record(query, root2));
        }
        None
    }

    /// Build the hit record for an accepted root.
    fn make_record(&self, query: RayQuery, t: i64) -> (r: HitRecord)
        requires
            sphere_wf(*self),
            query_wf(query),
            fp_wf(t as int),
        ensures
            r == sphere_record_spec(*self, query, t as int),
            hit_wf(r),
            r.t == t,
    {
        let point = query.ray.at(t);
        let outward = Vec3 {
            x: fp_div(clamp_i64_add(point.x, -self.center.x), self.radius),
            y: fp_div(clamp_i64_add(point.y, -self.center.y), self.radius),
            z: fp_div(clamp_i64_add(point.z, -self.center.z), self.radius),
        };
        let front_face = query.ray.direction.dot(&outward) < 0;
        HitRecord {
            t,
            point,
            normal: if front_face {
                outward
            } else {
                outward.neg()
            },
            front_face,
            material: self.material,
        }
    }
}

} // verus!
