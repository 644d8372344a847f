//! The camera: a ray generator with a thin-lens model.

use vstd::prelude::*;
use crate::rng::random_in_unit_disk;
use crate::shared::FP_ONE;
use crate::shared::Point3;
use crate::shared::Ray;
use crate::shared::Vec3;
use crate::shared::fp_mul;
use crate::shared::fp_mul_spec;
use crate::shared::fp_wf;
use crate::shared::ray_wf;
use crate::shared::vadd_spec;
use crate::shared::vcross_spec;
use crate::shared::vec_wf;
use crate::shared::vlength_spec;
use crate::shared::vnormalize_spec;
use crate::shared::vscale_spec;
use crate::shared::vsub_spec;

verus! {

/// Representation of a camera in the scene.
#[derive(Copy, Clone, Debug, PartialEq, Eq, Structural)]
pub struct Camera {
    pub origin: Point3,
    pub lower_left_corner: Point3,
    pub horizontal: Vec3,
    pub vertical: Vec3,
    pub u: Vec3,
    pub v: Vec3,
    pub lens_radius: i64,
}

/// Well-formed camera state.
pub open spec fn camera_wf(c: Camera) -> bool {
    &&& vec_wf(c.origin)
    &&& vec_wf(c.lower_left_corner)
    &&& vec_wf(c.horizontal)
    &&& vec_wf(c.vertical)
    &&& vec_wf(c.u)
    &&& vec_wf(c.v)
    &&& 0 <= c.lens_radius <= crate::shared::FP_LIMIT
}

/// A point the unit-disk sampler can return.
pub open spec fn disk_sample(p: Vec3) -> bool {
    &&& vec_wf(p)
    &&& p.z == 0
    &&& -FP_ONE < p.x < FP_ONE
    &&& -FP_ONE < p.y < FP_ONE
}

/// The ray the lens model produces for the drawn disk point `p`: the
/// origin offset within the lens, aimed at the viewport point (s, t),
/// with a degenerate zero direction replaced by a fixed axis.
pub open spec fn get_ray_spec(cam: Camera, s: int, t: int, p: Vec3) -> Ray {
    let rd = vscale_spec(cam.lens_radius as int, p);
    let offset = vadd_spec(vscale_spec(rd.x as int, cam.u), vscale_spec(rd.y as int, cam.v));
    let origin = vadd_spec(cam.origin, offset);
    let dir = vsub_spec(
        vadd_spec(
            vadd_spec(cam.lower_left_corner, vscale_spec(s, cam.horizontal)),
            vscale_spec(t, cam.vertical),
        ),
        origin,
    );
    Ray {
        origin,
        direction: if dir.x == 0 && dir.y == 0 && dir.z == 0 {
            Vec3 { x: 0, y: 0, z: (-65536) as i64 }
        } else {
            dir
        },
    }
}

/// The view direction of a camera aimed from `lookfrom` at `lookat`.
pub open spec fn view_w(lookfrom: Point3, lookat: Point3) -> Vec3 {
    vnormalize_spec(vsub_spec(lookfrom, lookat))
}

/// The camera `new` builds from its parameters.
pub open spec fn camera_spec(
    lookfrom: Point3,
    lookat: Point3,
    vup: Vec3,
    vfov_half_tan: int,
    aspect_ratio: int,
    aperture: int,
    focus_dist: int,
) -> Camera {
    let viewport_height = clamp2(2 * vfov_half_tan);
    let viewport_width = fp_mul_spec(aspect_ratio, viewport_height);
    let w = view_w(lookfrom, lookat);
    let u = vnormalize_spec(vcross_spec(vup, w));
    let v = vcross_spec(w, u);
    let origin = lookfrom;
    let horizontal = vscale_spec(fp_mul_spec(focus_dist, viewport_width), u);
    let vertical = vscale_spec(fp_mul_spec(focus_dist, viewport_height), v);
    let lower_left_corner = vsub_spec(
        vsub_spec(vsub_spec(origin, vhalf(horizontal)), vhalf(vertical)),
        vscale_spec(focus_dist, w),
    );
    Camera {
        origin,
        lower_left_corner,
        horizontal,
        vertical,
        u,
        v,
        lens_radius: (aperture / 2) as i64,
    }
}

/// Clamp a doubled scalar back into the fixed-point range.
pub open spec fn clamp2(v: int) -> int {
    crate::shared::clamp_fp(v)
}

/// Half of each component, rounding toward zero.
pub open spec fn vhalf(v: Vec3) -> Vec3 {
    vscale_spec(32768, v)
}

fn half_of(v: &Vec3) -> (r: Vec3)
    requires
        vec_wf(*v),
    ensures
        r == vhalf(*v),
        vec_wf(r),
{
    v.scale(32768)
}

impl Camera {
    /// Build a camera. The vertical field of view enters as the tangent of
    /// its half-angle, as a fixed-point scalar; aimed and oriented by
    /// `lookfrom`, `lookat` and `vup`, with a thin lens of the given
    /// aperture focused at `focus_dist`.
    pub fn new(
        lookfrom: Point3,
        lookat: Point3,
        vup: Vec3,
        vfov_half_tan: i64,
        aspect_ratio: i64,
        aperture: i64,
        focus_dist: i64,
    ) -> (r: Camera)
        requires
            vec_wf(lookfrom),
            vec_wf(lookat),
            vec_wf(vup),
            fp_wf(vfov_half_tan as int),
            fp_wf(aspect_ratio as int),
            0 <= aperture <= crate::shared::FP_LIMIT,
            fp_wf(focus_dist as int),
            vlength_spec(vsub_spec(lookfrom, lookat)) >= 1,
            vlength_spec(vcross_spec(vup, view_w(lookfrom, lookat))) >= 1,
        ensures
            r == camera_spec(
                lookfrom,
                lookat,
                vup,
                vfov_half_tan as int,
                aspect_ratio as int,
                aperture as int,
                focus_dist as int,
            ),
            camera_wf(r),
    {
        let viewport_height = crate::shared::clamp_i64_add(vfov_half_tan, vfov_half_tan);
        let viewport_width = fp_mul(aspect_ratio, viewport_height);

        let w = lookfrom.sub(&lookat).normalize();
        let u = vup.cross(&w).normalize();
        let v = w.cross(&u);

        let origin = lookfrom;
        let horizontal = u.scale(fp_mul(focus_dist, viewport_width));
        let vertical = v.scale(fp_mul(focus_dist, viewport_height));
        let lower_left_corner = origin.sub(&half_of(&horizontal)).sub(&half_of(&vertical)).sub(
            &w.scale(focus_dist),
        );

        Camera {
            origin,
            lower_left_corner,
            horizontal,
            vertical,
            u,
            v,
            lens_radius: ((aperture as u64) / 2) as i64,
        }
    }

    /// Generate a ray through viewport coordinates (s, t) using the lens
    /// model. The lens perturbation is random; with a closed aperture the
    /// ray leaves exactly from the camera origin toward the viewport
    /// point, unless that direction degenerates to zero.
    pub fn get_ray(&self, s: i64, t: i64) -> (r: Ray)
        requires
            camera_wf(*self),
            0 <= s <= FP_ONE,
            0 <= t <= FP_ONE,
        ensures
            ray_wf(r),
            exists|p: Vec3| #[trigger] disk_sample(p) && r == get_ray_spec(*self, s as int, t as int, p),
            self.lens_radius == 0 ==> r.origin == self.origin,
            self.lens_radius == 0 ==> {
                let dir = vsub_spec(
                    vadd_spec(
                        vadd_spec(self.lower_left_corner, vscale_spec(s as int, self.horizontal)),
                        vscale_spec(t as int, self.vertical),
                    ),
                    self.origin,
                );
                r.direction == (if dir.x == 0 && dir.y == 0 && dir.z == 0 {
                    Vec3 { x: 0, y: 0, z: (-65536) as i64 }
                } else {
                    dir
                })
            },
    {
        let p = random_in_unit_disk();
        let rd = p.scale(self.lens_radius);
        proof {
            if self.lens_radius == 0 {
                assert(0 * (p.x as int) == 0 && 0 * (p.y as int) == 0 && 0 * (p.z as int) == 0)
                    by (nonlinear_arith);
                assert(rd == (Vec3 { x: 0 as i64, y: 0 as i64, z: 0 as i64 }));
            }
        }
        let offset = self.u.scale(rd.x).add(&self.v.scale(rd.y));
        let ghost offset_g = offset;
        proof {
            if self.lens_radius == 0 {
                assert((self.u.x as int) * 0 == 0 && (self.u.y as int) * 0 == 0 && (
                self.u.z as int) * 0 == 0) by (nonlinear_arith);
                assert((self.v.x as int) * 0 == 0 && (self.v.y as int) * 0 == 0 && (
                self.v.z as int) * 0 == 0) by (nonlinear_arith);
                assert(0 * (self.u.x as int) == 0 && 0 * (self.u.y as int) == 0 && 0 * (
                self.u.z as int) == 0) by (nonlinear_arith);
                assert(0 * (self.v.x as int) == 0 && 0 * (self.v.y as int) == 0 && 0 * (
                self.v.z as int) == 0) by (nonlinear_arith);
                assert(offset_g == (Vec3 { x: 0 as i64, y: 0 as i64, z: 0 as i64 }));
            }
        }

        let origin = self.origin.add(&offset);
        let dir = self.lower_left_corner.add(&self.horizontal.scale(s)).add(
            &self.vertical.scale(t),
        ).sub(&origin);
        let direction = if dir.x == 0 && dir.y == 0 && dir.z == 0 {
            Vec3 { x: 0, y: 0, z: -FP_ONE }
        } else {
            dir
        };
        proof {
            if self.lens_radius == 0 {
                assert(vadd_spec(self.origin, offset_g) == self.origin);
            }
            assert(disk_sample(p) && (Ray { origin, direction }) == get_ray_spec(
                *self,
                s as int,
                t as int,
                p,
            ));
        }
        Ray::new(origin, direction)
    }
}

} // verus!
