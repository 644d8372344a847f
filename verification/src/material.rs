//! Materials: the closed set of surface behaviors.
//!
//! Each variant maps an incoming ray and hit to an attenuation color and a
//! scattered ray. The random pieces of each scattering model come from the
//! sampling helpers, so a contract states the attenuation exactly and what
//! holds of every possible scattered ray.

use vstd::prelude::*;
use crate::object::HitRecord;
use crate::object::hit_wf;
use crate::rng::lemma_nonzero_length;
use crate::rng::lemma_normalized_bounded;
use crate::rng::random_in_unit_sphere;
use crate::rng::random_unit_vector;
use crate::rng::rand_fp;
use crate::shared::FP_LIMIT;
use crate::shared::FP_ONE;
use crate::shared::Color;
use crate::shared::Ray;
use crate::shared::Vec3;
use crate::shared::VecExt;
use crate::shared::color_wf;
use crate::shared::fp_div;
use crate::shared::fp_mul;
use crate::shared::fp_wf;
use crate::shared::ray_wf;
use crate::shared::reflectance;
use crate::shared::sqrt_fp;
use crate::shared::vec_reflect;
use crate::shared::vec_refract;
use crate::shared::vec_wf;

verus! {

/// A diffuse surface with a fixed albedo.
#[derive(Copy, Clone, Debug, PartialEq, Eq, Structural)]
pub struct Lambertian {
    pub albedo: Color,
}

/// A reflective surface with a fixed albedo and a fuzz radius.
#[derive(Copy, Clone, Debug, PartialEq, Eq, Structural)]
pub struct Metal {
    pub albedo: Color,
    pub fuzz: i64,
}

/// A refractive surface with an index of refraction.
#[derive(Copy, Clone, Debug, PartialEq, Eq, Structural)]
pub struct Dielectric {
    pub ir: i64,
}

/// A material which can scatter rays: a closed, fixed set of variants.
#[derive(Copy, Clone, Debug, PartialEq, Eq, Structural)]
pub enum Material {
    Lambertian(Lambertian),
    Metal(Metal),
    Dielectric(Dielectric),
}

/// Well-formed material parameters.
pub open spec fn mat_wf(m: Material) -> bool {
    match m {
        Material::Lambertian(l) => color_wf(l.albedo),
        Material::Metal(mm) => color_wf(mm.albedo) && 0 <= mm.fuzz <= FP_ONE,
        Material::Dielectric(d) => 1 <= d.ir <= FP_LIMIT - FP_ONE,
    }
}

/// Result of `Material::scatter`.
pub struct ScatterResult {
    pub attenuation: Color,
    pub scattered_ray: Ray,
}

/// The attenuation each material applies, independent of the random
/// scatter direction.
pub open spec fn attenuation_of(m: Material) -> Color {
    match m {
        Material::Lambertian(l) => l.albedo,
        Material::Metal(mm) => mm.albedo,
        Material::Dielectric(_) => Vec3 { x: FP_ONE, y: FP_ONE, z: FP_ONE },
    }
}

/// A direction with a degenerate all-zero vector replaced by a fixed
/// axis, so a scattered ray always has a usable direction.
pub open spec fn usable_spec(v: Vec3) -> Vec3 {
    if v.x == 0 && v.y == 0 && v.z == 0 {
        Vec3 { x: FP_ONE, y: 0, z: 0 }
    } else {
        v
    }
}

fn usable_direction(v: Vec3) -> (r: Vec3)
    requires
        vec_wf(v),
    ensures
        r == usable_spec(v),
        vec_wf(r),
        !(r.x == 0 && r.y == 0 && r.z == 0),
{
    if v.x == 0 && v.y == 0 && v.z == 0 {
        Vec3 { x: FP_ONE, y: 0, z: 0 }
    } else {
        v
    }
}

/// A vector the unit-direction sampler can return.
pub open spec fn unit_sample(u: Vec3) -> bool {
    &&& vec_wf(u)
    &&& -FP_ONE <= u.x <= FP_ONE
    &&& -FP_ONE <= u.y <= FP_ONE
    &&& -FP_ONE <= u.z <= FP_ONE
}

/// A vector the unit-ball sampler can return.
pub open spec fn ball_sample(p: Vec3) -> bool {
    &&& vec_wf(p)
    &&& 1 <= crate::shared::vlen_sq_raw(p) < 0x1_0000_0000
}

/// The diffuse bounce direction for the drawn unit vector `u`: near the
/// normal, falling back to the normal itself when the sum degenerates.
pub open spec fn lambertian_direction(normal: Vec3, u: Vec3) -> Vec3 {
    let d = crate::shared::vadd_spec(normal, u);
    usable_spec(
        if d.spec_near_zero() {
            normal
        } else {
            d
        },
    )
}

/// The mirror direction for the drawn unit-ball sample `p`: the exact
/// reflection, fuzzed by `fuzz * p`.
pub open spec fn metal_direction(ray: Ray, normal: Vec3, fuzz: int, p: Vec3) -> Vec3 {
    usable_spec(
        crate::shared::vadd_spec(
            crate::shared::vec_reflect_spec(crate::shared::vnormalize_spec(ray.direction), normal),
            crate::shared::vscale_spec(fuzz, p),
        ),
    )
}

/// The refraction ratio a dielectric applies at a hit.
pub open spec fn dielectric_ratio(ir: int, front_face: bool) -> int {
    if front_face {
        crate::shared::fp_div_spec(FP_ONE as int, ir)
    } else {
        ir
    }
}

/// The clamped incidence cosine at a hit, from the unit direction `uv`.
pub open spec fn dielectric_cos(uv: Vec3, normal: Vec3) -> int {
    let d = crate::shared::vdot_spec(crate::shared::vneg_spec(uv), normal);
    if d >= FP_ONE {
        FP_ONE as int
    } else {
        d
    }
}

/// The incidence sine at a hit, from the unit direction `uv`.
pub open spec fn dielectric_sin(uv: Vec3, normal: Vec3) -> int {
    let cs = crate::shared::fp_mul_spec(dielectric_cos(uv, normal), dielectric_cos(uv, normal));
    crate::shared::sqrt_fp_spec(
        if FP_ONE - cs >= 0 {
            FP_ONE - cs
        } else {
            0
        },
    )
}

/// Snell's law forbids refraction: total internal reflection.
pub open spec fn dielectric_cannot_refract(
    ir: int,
    front_face: bool,
    uv: Vec3,
    normal: Vec3,
) -> bool {
    crate::shared::fp_mul_spec(dielectric_ratio(ir, front_face), dielectric_sin(uv, normal))
        > FP_ONE
}

/// The dielectric's outgoing direction for the drawn reflectance sample:
/// reflect when refraction is impossible or the Schlick draw says so,
/// else refract.
pub open spec fn dielectric_direction(
    ir: int,
    front_face: bool,
    uv: Vec3,
    normal: Vec3,
    draw: int,
) -> Vec3 {
    let ratio = dielectric_ratio(ir, front_face);
    if dielectric_cannot_refract(ir, front_face, uv, normal) || crate::shared::reflectance_spec(
        dielectric_cos(uv, normal),
        ratio,
    ) > draw {
        usable_spec(crate::shared::vec_reflect_spec(uv, normal))
    } else {
        usable_spec(crate::shared::vec_refract_spec(uv, normal, ratio))
    }
}

impl Lambertian {
    /// Diffuse scatter: bounce near the surface normal, tinted by the
    /// albedo, whatever direction the sampler chose.
    fn scatter(&self, _ray: &Ray, hit: &HitRecord) -> (r: Option<ScatterResult>)
        requires
            color_wf(self.albedo),
            hit_wf(*hit),
        ensures
            r matches Some(s) && s.attenuation == self.albedo && s.scattered_ray.origin
                == hit.point && ray_wf(s.scattered_ray),
            r matches Some(s) && exists|u: Vec3|
                #[trigger] unit_sample(u) && s.scattered_ray.direction == lambertian_direction(
                    hit.normal,
                    u,
                ),
    {
        let u = random_unit_vector();
        let mut scatter_direction = hit.normal.add(&u);
        if scatter_direction.near_zero() {
            scatter_direction = hit.normal;
        }
        let dir = usable_direction(scatter_direction);
        proof {
            assert(unit_sample(u) && dir == lambertian_direction(hit.normal, u));
        }
        let scattered = Ray::new(hit.point, dir);
        Some(ScatterResult { attenuation: self.albedo, scattered_ray: scattered })
    }
}

impl Metal {
    /// Mirror scatter: reflect about the normal, fuzzed by a random
    /// unit-ball offset, tinted by the albedo.
    fn scatter(&self, ray: &Ray, hit: &HitRecord) -> (r: Option<ScatterResult>)
        requires
            color_wf(self.albedo),
            0 <= self.fuzz <= FP_ONE,
            ray_wf(*ray),
            hit_wf(*hit),
        ensures
            r matches Some(s) && s.attenuation == self.albedo && s.scattered_ray.origin
                == hit.point && ray_wf(s.scattered_ray),
            r matches Some(s) && exists|p: Vec3|
                #[trigger] ball_sample(p) && s.scattered_ray.direction == metal_direction(
                    *ray,
                    hit.normal,
                    self.fuzz as int,
                    p,
                ),
            self.fuzz == 0 ==> (r matches Some(s) && s.scattered_ray.direction == usable_spec(
                crate::shared::vec_reflect_spec(
                    crate::shared::vnormalize_spec(ray.direction),
                    hit.normal,
                ),
            )),
    {
        proof {
            lemma_nonzero_length(ray.direction);
        }
        let reflected = vec_reflect(ray.direction.normalize(), hit.normal);
        let p = random_in_unit_sphere();
        let fuzzed = reflected.add(&p.scale(self.fuzz));
        let dir = usable_direction(fuzzed);
        proof {
            assert(ball_sample(p) && dir == metal_direction(*ray, hit.normal, self.fuzz as int, p));
            if self.fuzz == 0 {
                assert(0 * (p.x as int) == 0 && 0 * (p.y as int) == 0 && 0 * (p.z as int) == 0)
                    by (nonlinear_arith);
                assert(crate::shared::vscale_spec(0, p) == (Vec3 { x: 0, y: 0, z: 0 }));
                assert(fuzzed == reflected);
            }
        }
        let scattered = Ray::new(hit.point, dir);
        Some(ScatterResult { attenuation: self.albedo, scattered_ray: scattered })
    }
}

impl Dielectric {
    /// Refractive scatter: refract when Snell's law allows it and a random
    /// reflectance draw passes, else reflect; never attenuates.
    fn scatter(&self, ray: &Ray, hit: &HitRecord) -> (r: Option<ScatterResult>)
        requires
            1 <= self.ir <= FP_LIMIT - FP_ONE,
            ray_wf(*ray),
            hit_wf(*hit),
        ensures
            r matches Some(s) && s.attenuation == (Vec3 { x: FP_ONE, y: FP_ONE, z: FP_ONE })
                && s.scattered_ray.origin == hit.point && ray_wf(s.scattered_ray),
            r matches Some(s) && exists|draw: int|
                #![trigger dielectric_direction(
                    self.ir as int,
                    hit.front_face,
                    crate::shared::vnormalize_spec(ray.direction),
                    hit.normal,
                    draw,
                )]
                0 <= draw < FP_ONE && s.scattered_ray.direction == dielectric_direction(
                    self.ir as int,
                    hit.front_face,
                    crate::shared::vnormalize_spec(ray.direction),
                    hit.normal,
                    draw,
                ),
            dielectric_cannot_refract(
                self.ir as int,
                hit.front_face,
                crate::shared::vnormalize_spec(ray.direction),
                hit.normal,
            ) ==> (r matches Some(s) && s.scattered_ray.direction == usable_spec(
                crate::shared::vec_reflect_spec(
                    crate::shared::vnormalize_spec(ray.direction),
                    hit.normal,
                ),
            )),
    {
        let attenuation = Vec3 { x: FP_ONE, y: FP_ONE, z: FP_ONE };
        let refraction_ratio: i64 = if hit.front_face {
            fp_div(FP_ONE, self.ir)
        } else {
            self.ir
        };

        proof {
            lemma_nonzero_length(ray.direction);
            lemma_normalized_bounded(ray.direction);
        }
        let unit_direction = ray.direction.normalize();
        let d = unit_direction.neg().dot(&hit.normal);
        let cos_theta: i64 = if d >= FP_ONE {
            FP_ONE
        } else {
            d
        };
        let cos_sq = fp_mul(cos_theta, cos_theta);
        proof {
            assert((cos_theta as int) * (cos_theta as int) >= 0) by (nonlinear_arith);
        }
        let sin_sq: i64 = if FP_ONE - cos_sq >= 0 {
            FP_ONE - cos_sq
        } else {
            0
        };
        let sin_theta = sqrt_fp(sin_sq);
        proof {
            assert(cos_theta as int == dielectric_cos(unit_direction, hit.normal));
            assert(sin_theta as int == dielectric_sin(unit_direction, hit.normal));
            assert(refraction_ratio as int == dielectric_ratio(self.ir as int, hit.front_face));
        }

        let cannot_refract = fp_mul(refraction_ratio, sin_theta) > FP_ONE;
        let draw = rand_fp(0, FP_ONE);
        let direction: Vec3;
        if cannot_refract || reflectance(cos_theta, refraction_ratio) > draw {
            direction = vec_reflect(unit_direction, hit.normal);
        } else {
            direction = vec_refract(unit_direction, hit.normal, refraction_ratio);
        }

        let dir = usable_direction(direction);
        proof {
            assert(dir == dielectric_direction(
                self.ir as int,
                hit.front_face,
                unit_direction,
                hit.normal,
                draw as int,
            ));
        }
        let scattered = Ray::new(hit.point, dir);
        Some(ScatterResult { attenuation, scattered_ray: scattered })
    }
}

impl Material {
    /// Scatter an incoming ray at a hit: some attenuation and outgoing ray,
    /// with the attenuation fixed per variant and the outgoing ray rooted
    /// at the hit point.
    pub fn scatter(&self, ray: &Ray, hit: &HitRecord) -> (r: Option<ScatterResult>)
        requires
            mat_wf(*self),
            ray_wf(*ray),
            hit_wf(*hit),
        ensures
            r matches Some(s) && s.attenuation == attenuation_of(*self) && s.scattered_ray.origin
                == hit.point && ray_wf(s.scattered_ray),
            color_wf(attenuation_of(*self)) ==> (r matches Some(s) && color_wf(s.attenuation)),
            self is Lambertian ==> (r matches Some(s) && exists|u: Vec3|
                #[trigger] unit_sample(u) && s.scattered_ray.direction == lambertian_direction(
                    hit.normal,
                    u,
                )),
            self matches Material::Metal(m) ==> (r matches Some(s) && (exists|p: Vec3|
                #[trigger] ball_sample(p) && s.scattered_ray.direction == metal_direction(
                    *ray,
                    hit.normal,
                    m.fuzz as int,
                    p,
                )) && (m.fuzz == 0 ==> s.scattered_ray.direction == usable_spec(
                crate::shared::vec_reflect_spec(
                    crate::shared::vnormalize_spec(ray.direction),
                    hit.normal,
                ),
            ))),
            self matches Material::Dielectric(dm) ==> (r matches Some(s) && (exists|draw: int|
                #![trigger dielectric_direction(
                    dm.ir as int,
                    hit.front_face,
                    crate::shared::vnormalize_spec(ray.direction),
                    hit.normal,
                    draw,
                )]
                0 <= draw < FP_ONE && s.scattered_ray.direction == dielectric_direction(
                    dm.ir as int,
                    hit.front_face,
                    crate::shared::vnormalize_spec(ray.direction),
                    hit.normal,
                    draw,
                )) && (dielectric_cannot_refract(
                dm.ir as int,
                hit.front_face,
                crate::shared::vnormalize_spec(ray.direction),
                hit.normal,
            ) ==> s.scattered_ray.direction == usable_spec(
                crate::shared::vec_reflect_spec(
                    crate::shared::vnormalize_spec(ray.direction),
                    hit.normal,
                ),
            ))),
    {
        match self {
            Material::Lambertian(m) => m.scatter(ray, hit),
            Material::Metal(m) => m.scatter(ray, hit),
            Material::Dielectric(m) => m.scatter(ray, hit),
        }
    }
}

} // verus!
