//! Shared numeric and geometric helpers: pixel indexing, block counting,
//! and the fixed-point scalar arithmetic the tracer is built on.
//!
//! Scalars are signed 16.16 fixed-point numbers held in `i64`: the value 1
//! is `FP_ONE`. Every operation clamps its result to `FP_LIMIT`, so all
//! well-formed values stay far from the `i64` range and no operation can
//! overflow; scene geometry never comes near the clamp.

use vstd::prelude::*;

verus! {

/// The fixed-point representation of 1.
pub const FP_ONE: i64 = 65536;

/// Magnitude bound kept by every fixed-point operation.
pub const FP_LIMIT: i64 = 0x100_0000_0000_0000;

/// Clamp a mathematical result into the well-formed fixed-point range.
pub open spec fn clamp_fp(v: int) -> int {
    if v > FP_LIMIT {
        FP_LIMIT as int
    } else if v < -FP_LIMIT {
        -FP_LIMIT as int
    } else {
        v
    }
}

/// A well-formed fixed-point scalar.
pub open spec fn fp_wf(v: int) -> bool {
    -FP_LIMIT <= v <= FP_LIMIT
}

/// Divide by the fixed-point scale, rounding toward zero.
pub open spec fn fp_scale_down(p: int) -> int {
    if p >= 0 {
        p / 65536
    } else {
        -((-p) / 65536)
    }
}

/// Fixed-point multiplication, clamped.
pub open spec fn fp_mul_spec(a: int, b: int) -> int {
    clamp_fp(fp_scale_down(a * b))
}

/// Fixed-point division by a positive scalar, rounding toward zero,
/// clamped.
pub open spec fn fp_div_spec(a: int, b: int) -> int {
    if a >= 0 {
        clamp_fp((a * 65536) / b)
    } else {
        clamp_fp(-(((-a) * 65536) / b))
    }
}

/// Clamp an `i128` intermediate into the fixed-point range.
fn clamp_i128(v: i128) -> (r: i64)
    ensures
        r == clamp_fp(v as int),
{
    if v > (FP_LIMIT as i128) {
        FP_LIMIT
    } else if v < -(FP_LIMIT as i128) {
        -FP_LIMIT
    } else {
        v as i64
    }
}

/// Clamped sum of two well-formed fixed-point scalars.
pub fn clamp_i64_add(a: i64, b: i64) -> (r: i64)
    requires
        fp_wf(a as int),
        fp_wf(b as int),
    ensures
        r == clamp_fp(a + b),
        fp_wf(r as int),
{
    clamp_i128((a as i128) + (b as i128))
}

/// The product of two fixed-point scalars.
pub fn fp_mul(a: i64, b: i64) -> (r: i64)
    requires
        fp_wf(a as int),
        fp_wf(b as int),
    ensures
        r == fp_mul_spec(a as int, b as int),
        fp_wf(r as int),
{
    let neg: bool = (a < 0) != (b < 0);
    let aa: u64 = if a >= 0 {
        a as u64
    } else {
        (-a) as u64
    };
    let bb: u64 = if b >= 0 {
        b as u64
    } else {
        (-b) as u64
    };
    proof {
        assert((aa as int) * (bb as int) >= 0 && (aa as int) * (bb as int)
            <= 0x100_0000_0000_0000int * 0x100_0000_0000_0000) by (nonlinear_arith)
            requires
                0 <= aa as int <= 0x100_0000_0000_0000,
                0 <= bb as int <= 0x100_0000_0000_0000,
        {}
        let ai = a as int;
        let bi = b as int;
        assert((aa as int) * (bb as int) == if ai * bi >= 0 {
            ai * bi
        } else {
            -(ai * bi)
        }) by (nonlinear_arith)
            requires
                aa as int == if ai >= 0 {
                    ai
                } else {
                    -ai
                },
                bb as int == if bi >= 0 {
                    bi
                } else {
                    -bi
                },
        {}
    }
    let p: u128 = (aa as u128) * (bb as u128);
    let q: u128 = p / 65536;
    let m: i64 = if neg {
        if q > (FP_LIMIT as u128) {
            -FP_LIMIT
        } else {
            -(q as i64)
        }
    } else {
        if q > (FP_LIMIT as u128) {
            FP_LIMIT
        } else {
            q as i64
        }
    };
    proof {
        let ai = a as int;
        let bi = b as int;
        if ai * bi >= 0 {
            if ai != 0 && bi != 0 {
                assert((ai < 0) == (bi < 0)) by (nonlinear_arith)
                    requires
                        ai * bi > 0 || ai * bi == 0,
                        ai != 0,
                        bi != 0,
                {}
            }
        } else {
            assert((ai < 0) != (bi < 0)) by (nonlinear_arith)
                requires
                    ai * bi < 0,
            {}
        }
        let pp = ai * bi;
        assert(p as int == (aa as int) * (bb as int));
        assert(q as int == ((aa as int) * (bb as int)) / 65536);
        if pp >= 0 {
            assert(fp_scale_down(pp) == q as int);
            if neg {
                assert(pp == 0) by (nonlinear_arith)
                    requires
                        pp == ai * bi,
                        pp >= 0,
                        (ai < 0) != (bi < 0),
                {}
                assert((aa as int) * (bb as int) == 0);
                vstd::arithmetic::div_mod::lemma_div_is_ordered(0, 0, 65536);
                assert(q as int == 0);
            }
        } else {
            assert(fp_scale_down(pp) == -(q as int));
        }
    }
    m
}

/// The quotient of a fixed-point scalar by a positive fixed-point scalar.
pub fn fp_div(a: i64, b: i64) -> (r: i64)
    requires
        fp_wf(a as int),
        1 <= b <= FP_LIMIT,
    ensures
        r == fp_div_spec(a as int, b as int),
        fp_wf(r as int),
{
    let neg: bool = a < 0;
    let aa: u64 = if a >= 0 {
        a as u64
    } else {
        (-a) as u64
    };
    let p: u128 = (aa as u128) * 65536;
    let q: u128 = p / (b as u128);
    proof {
        vstd::arithmetic::div_mod::lemma_div_is_ordered(0, (aa as int) * 65536, b as int);
    }
    if neg {
        if q > (FP_LIMIT as u128) {
            -FP_LIMIT
        } else {
            -(q as i64)
        }
    } else {
        if q > (FP_LIMIT as u128) {
            FP_LIMIT
        } else {
            q as i64
        }
    }
}

/// `r` is the integer square root of `n`.
pub open spec fn is_isqrt(n: int, r: int) -> bool {
    &&& r >= 0
    &&& r * r <= n
    &&& (r + 1) * (r + 1) > n
}

/// The integer square root, as a mathematical function.
pub open spec fn sqrt_floor(n: int) -> int {
    choose|r: int| is_isqrt(n, r)
}

/// The integer square root is unique, so `sqrt_floor` agrees with any
/// witness.
pub proof fn lemma_sqrt_floor(n: int, r: int)
    requires
        is_isqrt(n, r),
    ensures
        sqrt_floor(n) == r,
{
    assert(exists|x: int| is_isqrt(n, x));
    let s = sqrt_floor(n);
    assert(is_isqrt(n, s));
    assert(s == r) by (nonlinear_arith)
        requires
            s >= 0,
            r >= 0,
            s * s <= n,
            (s + 1) * (s + 1) > n,
            r * r <= n,
            (r + 1) * (r + 1) > n,
    {}
}

/// Binary-search integer square root.
pub fn isqrt(n: u128) -> (r: u128)
    ensures
        is_isqrt(n as int, r as int),
        r == sqrt_floor(n as int),
        r <= 0x1_0000_0000_0000_0000,
{
    let mut lo: u128 = 0;
    let mut hi: u128 = (u64::MAX as u128) + 1;
    proof {
        assert((hi as int) * (hi as int) > n as int) by (nonlinear_arith)
            requires
                hi as int == 0x1_0000_0000_0000_0000,
                n as int <= 0xffffffffffffffffffffffffffffffff,
        {}
    }
    while lo + 1 < hi
        invariant
            lo < hi <= 0x1_0000_0000_0000_0000,
            (lo as int) * (lo as int) <= n as int,
            (hi as int) * (hi as int) > n as int,
        decreases hi - lo,
    {
        let mid: u128 = lo + (hi - lo) / 2;
        proof {
            assert((mid as int) * (mid as int) < 0x1_0000_0000_0000_0000int
                * 0x1_0000_0000_0000_0000) by (nonlinear_arith)
                requires
                    0 <= mid as int,
                    (mid as int) < 0x1_0000_0000_0000_0000,
            {}
            assert(0x1_0000_0000_0000_0000int * 0x1_0000_0000_0000_0000
                == 0x1_0000_0000_0000_0000_0000_0000_0000_0000int) by (nonlinear_arith);
        }
        let sq: u128 = mid * mid;
        if sq <= n {
            lo = mid;
        } else {
            hi = mid;
        }
    }
    proof {
        lemma_sqrt_floor(n as int, lo as int);
    }
    lo
}

/// Square root of a 16.16 fixed-point value, as a fixed-point value.
pub open spec fn sqrt_fp_spec(v: int) -> int {
    clamp_fp(sqrt_floor(v * 65536))
}

/// Fixed-point square root of a nonnegative fixed-point scalar.
pub fn sqrt_fp(v: i64) -> (r: i64)
    requires
        0 <= v <= FP_LIMIT,
    ensures
        r == sqrt_fp_spec(v as int),
        0 <= r <= FP_LIMIT,
{
    let w: u128 = (v as u128) * 65536;
    let s = isqrt(w);
    if s > (FP_LIMIT as u128) {
        FP_LIMIT
    } else {
        s as i64
    }
}

/// A three-component fixed-point vector: positions, directions and colors.
#[derive(Copy, Clone, Debug, PartialEq, Eq, Structural)]
pub struct Vec3 {
    pub x: i64,
    pub y: i64,
    pub z: i64,
}

/// A point in space.
pub type Point3 = Vec3;

/// An RGB color with components scaled so that `FP_ONE` is full intensity.
pub type Color = Vec3;

/// All components are well-formed fixed-point scalars.
pub open spec fn vec_wf(v: Vec3) -> bool {
    &&& fp_wf(v.x as int)
    &&& fp_wf(v.y as int)
    &&& fp_wf(v.z as int)
}

pub open spec fn vadd_spec(a: Vec3, b: Vec3) -> Vec3 {
    Vec3 {
        x: clamp_fp(a.x + b.x) as i64,
        y: clamp_fp(a.y + b.y) as i64,
        z: clamp_fp(a.z + b.z) as i64,
    }
}

pub open spec fn vsub_spec(a: Vec3, b: Vec3) -> Vec3 {
    Vec3 {
        x: clamp_fp(a.x - b.x) as i64,
        y: clamp_fp(a.y - b.y) as i64,
        z: clamp_fp(a.z - b.z) as i64,
    }
}

pub open spec fn vneg_spec(a: Vec3) -> Vec3 {
    Vec3 { x: (-(a.x as int)) as i64, y: (-(a.y as int)) as i64, z: (-(a.z as int)) as i64 }
}

/// Scale a vector by a fixed-point scalar.
pub open spec fn vscale_spec(k: int, v: Vec3) -> Vec3 {
    Vec3 {
        x: fp_mul_spec(k, v.x as int) as i64,
        y: fp_mul_spec(k, v.y as int) as i64,
        z: fp_mul_spec(k, v.z as int) as i64,
    }
}

/// Componentwise product; attenuation of a color by a color.
pub open spec fn vcmul_spec(a: Vec3, b: Vec3) -> Vec3 {
    Vec3 {
        x: fp_mul_spec(a.x as int, b.x as int) as i64,
        y: fp_mul_spec(a.y as int, b.y as int) as i64,
        z: fp_mul_spec(a.z as int, b.z as int) as i64,
    }
}

/// Dot product, as a fixed-point scalar.
pub open spec fn vdot_spec(a: Vec3, b: Vec3) -> int {
    clamp_fp(fp_scale_down(a.x * b.x + a.y * b.y + a.z * b.z))
}

/// Cross product.
pub open spec fn vcross_spec(a: Vec3, b: Vec3) -> Vec3 {
    Vec3 {
        x: clamp_fp(fp_mul_spec(a.y as int, b.z as int) - fp_mul_spec(a.z as int, b.y as int))
            as i64,
        y: clamp_fp(fp_mul_spec(a.z as int, b.x as int) - fp_mul_spec(a.x as int, b.z as int))
            as i64,
        z: clamp_fp(fp_mul_spec(a.x as int, b.y as int) - fp_mul_spec(a.y as int, b.x as int))
            as i64,
    }
}

/// Unscaled sum of squared components.
pub open spec fn vlen_sq_raw(v: Vec3) -> int {
    v.x * v.x + v.y * v.y + v.z * v.z
}

/// Euclidean length, as a fixed-point scalar.
pub open spec fn vlength_spec(v: Vec3) -> int {
    clamp_fp(sqrt_floor(vlen_sq_raw(v)))
}

/// The unit vector in the direction of `v`.
pub open spec fn vnormalize_spec(v: Vec3) -> Vec3 {
    let len = vlength_spec(v);
    Vec3 {
        x: fp_div_spec(v.x as int, len) as i64,
        y: fp_div_spec(v.y as int, len) as i64,
        z: fp_div_spec(v.z as int, len) as i64,
    }
}

/// Scale a signed 32.32-style intermediate down to 16.16, clamped.
fn scale_down_i128(p: i128) -> (r: i64)
    requires
        -0x10_0000_0000_0000_0000_0000_0000_0000 <= p <= 0x10_0000_0000_0000_0000_0000_0000_0000,
    ensures
        r == clamp_fp(fp_scale_down(p as int)),
{
    if p >= 0 {
        let q: u128 = (p as u128) / 65536;
        if q > (FP_LIMIT as u128) {
            FP_LIMIT
        } else {
            q as i64
        }
    } else {
        let q: u128 = ((-p) as u128) / 65536;
        if q > (FP_LIMIT as u128) {
            -FP_LIMIT
        } else {
            -(q as i64)
        }
    }
}

impl Vec3 {
    pub open spec fn spec_zero() -> Vec3 {
        Vec3 { x: 0, y: 0, z: 0 }
    }

    pub fn zero() -> (r: Vec3)
        ensures
            r == Vec3::spec_zero(),
            vec_wf(r),
    {
        Vec3 { x: 0, y: 0, z: 0 }
    }

    pub fn new(x: i64, y: i64, z: i64) -> (r: Vec3)
        requires
            fp_wf(x as int),
            fp_wf(y as int),
            fp_wf(z as int),
        ensures
            r == (Vec3 { x, y, z }),
            vec_wf(r),
    {
        Vec3 { x, y, z }
    }

    pub fn add(&self, o: &Vec3) -> (r: Vec3)
        requires
            vec_wf(*self),
            vec_wf(*o),
        ensures
            r == vadd_spec(*self, *o),
            vec_wf(r),
    {
        Vec3 {
            x: clamp_i128((self.x as i128) + (o.x as i128)),
            y: clamp_i128((self.y as i128) + (o.y as i128)),
            z: clamp_i128((self.z as i128) + (o.z as i128)),
        }
    }

    pub fn sub(&self, o: &Vec3) -> (r: Vec3)
        requires
            vec_wf(*self),
            vec_wf(*o),
        ensures
            r == vsub_spec(*self, *o),
            vec_wf(r),
    {
        Vec3 {
            x: clamp_i128((self.x as i128) - (o.x as i128)),
            y: clamp_i128((self.y as i128) - (o.y as i128)),
            z: clamp_i128((self.z as i128) - (o.z as i128)),
        }
    }

    pub fn neg(&self) -> (r: Vec3)
        requires
            vec_wf(*self),
        ensures
            r == vneg_spec(*self),
            vec_wf(r),
    {
        Vec3 { x: -self.x, y: -self.y, z: -self.z }
    }

    pub fn scale(&self, k: i64) -> (r: Vec3)
        requires
            vec_wf(*self),
            fp_wf(k as int),
        ensures
            r == vscale_spec(k as int, *self),
            vec_wf(r),
    {
        Vec3 { x: fp_mul(k, self.x), y: fp_mul(k, self.y), z: fp_mul(k, self.z) }
    }

    pub fn cmul(&self, o: &Vec3) -> (r: Vec3)
        requires
            vec_wf(*self),
            vec_wf(*o),
        ensures
            r == vcmul_spec(*self, *o),
            vec_wf(r),
    {
        Vec3 { x: fp_mul(self.x, o.x), y: fp_mul(self.y, o.y), z: fp_mul(self.z, o.z) }
    }

    pub fn dot(&self, o: &Vec3) -> (r: i64)
        requires
            vec_wf(*self),
            vec_wf(*o),
        ensures
            r == vdot_spec(*self, *o),
            fp_wf(r as int),
    {
        proof {
            lemma_sq_bound(self.x as int, o.x as int);
            lemma_sq_bound(self.y as int, o.y as int);
            lemma_sq_bound(self.z as int, o.z as int);
        }
        let p: i128 = (self.x as i128) * (o.x as i128) + (self.y as i128) * (o.y as i128) + (
        self.z as i128) * (o.z as i128);
        scale_down_i128(p)
    }

    pub fn cross(&self, o: &Vec3) -> (r: Vec3)
        requires
            vec_wf(*self),
            vec_wf(*o),
        ensures
            r == vcross_spec(*self, *o),
            vec_wf(r),
    {
        let x1 = fp_mul(self.y, o.z);
        let x2 = fp_mul(self.z, o.y);
        let y1 = fp_mul(self.z, o.x);
        let y2 = fp_mul(self.x, o.z);
        let z1 = fp_mul(self.x, o.y);
        let z2 = fp_mul(self.y, o.x);
        Vec3 {
            x: clamp_i128((x1 as i128) - (x2 as i128)),
            y: clamp_i128((y1 as i128) - (y2 as i128)),
            z: clamp_i128((z1 as i128) - (z2 as i128)),
        }
    }

    pub fn length_squared(&self) -> (r: i64)
        requires
            vec_wf(*self),
        ensures
            r == clamp_fp(fp_scale_down(vlen_sq_raw(*self))),
            0 <= r <= FP_LIMIT,
    {
        proof {
            lemma_sq_bound(self.x as int, self.x as int);
            lemma_sq_bound(self.y as int, self.y as int);
            lemma_sq_bound(self.z as int, self.z as int);
            lemma_sq_nonneg(self.x as int);
            lemma_sq_nonneg(self.y as int);
            lemma_sq_nonneg(self.z as int);
        }
        let p: i128 = (self.x as i128) * (self.x as i128) + (self.y as i128) * (self.y as i128)
            + (self.z as i128) * (self.z as i128);
        let r = scale_down_i128(p);
        proof {
            vstd::arithmetic::div_mod::lemma_div_is_ordered(0, p as int, 65536);
        }
        r
    }

    pub fn length(&self) -> (r: i64)
        requires
            vec_wf(*self),
        ensures
            r == vlength_spec(*self),
            0 <= r <= FP_LIMIT,
    {
        proof {
            lemma_sq_bound(self.x as int, self.x as int);
            lemma_sq_bound(self.y as int, self.y as int);
            lemma_sq_bound(self.z as int, self.z as int);
            lemma_sq_nonneg(self.x as int);
            lemma_sq_nonneg(self.y as int);
            lemma_sq_nonneg(self.z as int);
        }
        let p: i128 = (self.x as i128) * (self.x as i128) + (self.y as i128) * (self.y as i128)
            + (self.z as i128) * (self.z as i128);
        let s: u128 = isqrt(p as u128);
        if s > (FP_LIMIT as u128) {
            FP_LIMIT
        } else {
            s as i64
        }
    }

    pub fn normalize(&self) -> (r: Vec3)
        requires
            vec_wf(*self),
            vlength_spec(*self) >= 1,
        ensures
            r == vnormalize_spec(*self),
            vec_wf(r),
    {
        let len = self.length();
        Vec3 { x: fp_div(self.x, len), y: fp_div(self.y, len), z: fp_div(self.z, len) }
    }
}

/// Products of well-formed scalars fit comfortably in an `i128`.
proof fn lemma_sq_bound(a: int, b: int)
    requires
        fp_wf(a),
        fp_wf(b),
    ensures
        -0x1_0000_0000_0000_0000_0000_0000_0000 <= a * b <= 0x1_0000_0000_0000_0000_0000_0000_0000,
{
    assert(-0x1_0000_0000_0000_0000_0000_0000_0000 <= a * b
        <= 0x1_0000_0000_0000_0000_0000_0000_0000) by (nonlinear_arith)
        requires
            -0x100_0000_0000_0000 <= a <= 0x100_0000_0000_0000,
            -0x100_0000_0000_0000 <= b <= 0x100_0000_0000_0000,
    {}
}

proof fn lemma_sq_nonneg(a: int)
    ensures
        a * a >= 0,
{
    assert(a * a >= 0) by (nonlinear_arith);
}

/// Vec3 extensions.
pub trait VecExt {
    /// Mathematical meaning of `near_zero` for the implementing type.
    spec fn spec_near_zero(&self) -> bool;

    /// Are all components near zero?
    fn near_zero(&self) -> (r: bool)
        ensures
            r == self.spec_near_zero(),
    ;
}

/// Threshold below which a component counts as zero.
pub const NEAR_ZERO_EPS: i64 = 8;

impl VecExt for Vec3 {
    open spec fn spec_near_zero(&self) -> bool {
        &&& -NEAR_ZERO_EPS < self.x < NEAR_ZERO_EPS
        &&& -NEAR_ZERO_EPS < self.y < NEAR_ZERO_EPS
        &&& -NEAR_ZERO_EPS < self.z < NEAR_ZERO_EPS
    }

    fn near_zero(&self) -> (r: bool) {
        -NEAR_ZERO_EPS < self.x && self.x < NEAR_ZERO_EPS && -NEAR_ZERO_EPS < self.y && self.y
            < NEAR_ZERO_EPS && -NEAR_ZERO_EPS < self.z && self.z < NEAR_ZERO_EPS
    }
}

/// A minimal ray.
#[derive(Copy, Clone, Debug, PartialEq, Eq, Structural)]
pub struct Ray {
    pub origin: Vec3,
    pub direction: Vec3,
}

/// A ray whose components are well-formed and whose direction is not the
/// zero vector.
pub open spec fn ray_wf(r: Ray) -> bool {
    &&& vec_wf(r.origin)
    &&& vec_wf(r.direction)
    &&& !(r.direction.x == 0 && r.direction.y == 0 && r.direction.z == 0)
}

/// The point at parameter `t` along the ray.
pub open spec fn ray_at_spec(r: Ray, t: int) -> Point3 {
    vadd_spec(r.origin, vscale_spec(t, r.direction))
}

impl Ray {
    pub fn new(origin: Vec3, direction: Vec3) -> (r: Ray)
        ensures
            r == (Ray { origin, direction }),
    {
        Ray { origin, direction }
    }

    pub fn at(&self, t: i64) -> (p: Point3)
        requires
            vec_wf(self.origin),
            vec_wf(self.direction),
            fp_wf(t as int),
        ensures
            p == ray_at_spec(*self, t as int),
            vec_wf(p),
    {
        self.origin.add(&self.direction.scale(t))
    }
}

/// A ray together with the parametric interval in which hits count.
#[derive(Copy, Clone, Debug, PartialEq, Eq, Structural)]
pub struct RayQuery {
    pub ray: Ray,
    pub t_min: i64,
    pub t_max: i64,
}

/// A well-formed intersection query: valid ray and a nonempty interval of
/// well-formed bounds.
pub open spec fn query_wf(q: RayQuery) -> bool {
    &&& ray_wf(q.ray)
    &&& fp_wf(q.t_min as int)
    &&& fp_wf(q.t_max as int)
    &&& 0 <= q.t_min <= q.t_max
}

/// Reflection of `v` about the normal `n`.
pub open spec fn vec_reflect_spec(v: Vec3, n: Vec3) -> Vec3 {
    vsub_spec(v, vscale_spec(clamp_fp(2 * vdot_spec(v, n)), n))
}

pub fn vec_reflect(v: Vec3, n: Vec3) -> (r: Vec3)
    requires
        vec_wf(v),
        vec_wf(n),
    ensures
        r == vec_reflect_spec(v, n),
        vec_wf(r),
{
    let d = v.dot(&n);
    let k = clamp_i128(2 * (d as i128));
    v.sub(&n.scale(k))
}

/// Refraction of the unit vector `uv` at a surface with unit normal `n`
/// and refraction ratio `etai_over_etat`.
pub open spec fn vec_refract_spec(uv: Vec3, n: Vec3, etai_over_etat: int) -> Vec3 {
    let cos_theta = {
        let d = vdot_spec(vneg_spec(uv), n);
        if d >= FP_ONE {
            FP_ONE as int
        } else {
            d
        }
    };
    let r_out_perp = vscale_spec(etai_over_etat, vadd_spec(uv, vscale_spec(cos_theta, n)));
    let parallel_len_sq = vdot_spec(r_out_perp, r_out_perp);
    let m = clamp_fp(
        if FP_ONE - parallel_len_sq >= 0 {
            FP_ONE - parallel_len_sq
        } else {
            parallel_len_sq - FP_ONE
        },
    );
    let r_out_parallel = vscale_spec(-sqrt_fp_spec(m), n);
    vadd_spec(r_out_perp, r_out_parallel)
}

pub fn vec_refract(uv: Vec3, n: Vec3, etai_over_etat: i64) -> (r: Vec3)
    requires
        vec_wf(uv),
        vec_wf(n),
        fp_wf(etai_over_etat as int),
    ensures
        r == vec_refract_spec(uv, n, etai_over_etat as int),
        vec_wf(r),
{
    let d = uv.neg().dot(&n);
    let cos_theta: i64 = if d >= FP_ONE {
        FP_ONE
    } else {
        d
    };
    let r_out_perp = uv.add(&n.scale(cos_theta)).scale(etai_over_etat);
    proof {
        assert(vscale_spec(
            etai_over_etat as int,
            vadd_spec(uv, vscale_spec(cos_theta as int, n)),
        ) == r_out_perp);
    }
    let parallel_len_sq = r_out_perp.dot(&r_out_perp);
    let diff: i128 = (FP_ONE as i128) - (parallel_len_sq as i128);
    let m: i64 = clamp_i128(
        if diff >= 0 {
            diff
        } else {
            -diff
        },
    );
    let s = sqrt_fp(m);
    let r_out_parallel = n.scale(-s);
    r_out_perp.add(&r_out_parallel)
}

/// Schlick's approximation for reflectance.
pub open spec fn reflectance_spec(cosine: int, ref_idx: int) -> int {
    let r0a = fp_div_spec(FP_ONE - ref_idx, FP_ONE + ref_idx);
    let r0 = fp_mul_spec(r0a, r0a);
    let q = clamp_fp(FP_ONE - cosine);
    let q2 = fp_mul_spec(q, q);
    let q4 = fp_mul_spec(q2, q2);
    let q5 = fp_mul_spec(q4, q);
    clamp_fp(r0 + fp_mul_spec(clamp_fp(FP_ONE - r0), q5))
}

pub fn reflectance(cosine: i64, ref_idx: i64) -> (r: i64)
    requires
        fp_wf(cosine as int),
        0 <= ref_idx <= FP_LIMIT - FP_ONE,
    ensures
        r == reflectance_spec(cosine as int, ref_idx as int),
        fp_wf(r as int),
{
    let r0a = fp_div(FP_ONE - ref_idx, FP_ONE + ref_idx);
    let r0 = fp_mul(r0a, r0a);
    let q = clamp_i128((FP_ONE as i128) - (cosine as i128));
    let q2 = fp_mul(q, q);
    let q4 = fp_mul(q2, q2);
    let q5 = fp_mul(q4, q);
    let one_minus_r0 = clamp_i128((FP_ONE as i128) - (r0 as i128));
    clamp_i128((r0 as i128) + (fp_mul(one_minus_r0, q5) as i128))
}

/// A color with components in the renderable range `[0, 1]`.
pub open spec fn color_wf(c: Color) -> bool {
    &&& 0 <= c.x <= FP_ONE
    &&& 0 <= c.y <= FP_ONE
    &&& 0 <= c.z <= FP_ONE
}

/// A packed 0x00RRGGBB display pixel.
pub type ColorDisplay = u32;

/// The display quantization uses the conventional gamma of 1/2.2 == 5/11:
/// a channel value x in [0, 1] becomes the byte floor(255 * x^(5/11)).
/// That real-number quantity is characterized exactly over the integers:
/// y == floor(255 * (c/65536)^(5/11)) if and only if
/// y^11 * 65536^5 <= 255^11 * c^5 < (y+1)^11 * 65536^5.
///
/// 255^11, the numerator constant of that characterization.
pub const GAMMA_NUM: u128 = 0xf5365c4833ccb6a4c90aff;

/// Fifth power.
pub open spec fn p5(c: int) -> int {
    let c2 = c * c;
    let c4 = c2 * c2;
    c4 * c
}

/// Eleventh power.
pub open spec fn p11(y: int) -> int {
    let y2 = y * y;
    let y4 = y2 * y2;
    let y8 = y4 * y4;
    y8 * y2 * y
}

/// The scaled gamma curve: floor(255^11 * c^5 / 65536^5).
pub open spec fn gamma_q(c: int) -> int {
    (0xf5365c4833ccb6a4c90aff * p5(c)) / 0x1_0000_0000_0000_0000_0000
}

/// `y` is the gamma-corrected display byte of channel `c`.
pub open spec fn is_gamma_byte(c: int, y: int) -> bool {
    &&& 0 <= y <= 255
    &&& p11(y) <= gamma_q(c)
    &&& gamma_q(c) < p11(y + 1)
}

/// The gamma-corrected display byte of a channel.
pub open spec fn channel_byte(c: int) -> int {
    choose|y: int| is_gamma_byte(c, y)
}

/// The eleventh power is monotone on nonnegative arguments.
proof fn lemma_p11_le(a: int, b: int)
    requires
        0 <= a <= b,
    ensures
        p11(a) <= p11(b),
{
    assert(0 <= a * a <= b * b) by (nonlinear_arith)
        requires
            0 <= a <= b,
    {}
    assert(0 <= (a * a) * (a * a) <= (b * b) * (b * b)) by (nonlinear_arith)
        requires
            0 <= a * a <= b * b,
    {}
    assert(0 <= ((a * a) * (a * a)) * ((a * a) * (a * a)) <= ((b * b) * (b * b)) * ((b * b) * (b
        * b))) by (nonlinear_arith)
        requires
            0 <= (a * a) * (a * a) <= (b * b) * (b * b),
    {}
    assert(p11(a) <= p11(b)) by (nonlinear_arith)
        requires
            0 <= a <= b,
            0 <= a * a <= b * b,
            0 <= ((a * a) * (a * a)) * ((a * a) * (a * a)) <= ((b * b) * (b * b)) * ((b * b) * (b
                * b)),
            p11(a) == (((a * a) * (a * a)) * ((a * a) * (a * a))) * (a * a) * a,
            p11(b) == (((b * b) * (b * b)) * ((b * b) * (b * b))) * (b * b) * b,
    {}
}

/// The gamma byte is unique, so `channel_byte` agrees with any witness.
pub proof fn lemma_channel_byte_is(c: int, y: int)
    requires
        is_gamma_byte(c, y),
    ensures
        channel_byte(c) == y,
{
    assert(exists|x: int| is_gamma_byte(c, x));
    let s = channel_byte(c);
    assert(is_gamma_byte(c, s));
    if s < y {
        lemma_p11_le(s + 1, y);
        assert(false);
    }
    if y < s {
        lemma_p11_le(y + 1, s);
        assert(false);
    }
}

/// The gamma curve of a valid channel stays below the 256th power, so a
/// byte always exists.
proof fn lemma_gamma_q_bounds(c: int)
    requires
        0 <= c <= 65536,
    ensures
        0 <= gamma_q(c) <= 0xf5365c4833ccb6a4c90aff,
        gamma_q(c) < p11(256),
{
    assert(0 <= p5(c) <= 0x1_0000_0000_0000_0000_0000) by (nonlinear_arith)
        requires
            0 <= c <= 65536,
            p5(c) == ((c * c) * (c * c)) * c,
    {}
    assert(0 <= 0xf5365c4833ccb6a4c90aff * p5(c) <= 0xf5365c4833ccb6a4c90aff
        * 0x1_0000_0000_0000_0000_0000) by (nonlinear_arith)
        requires
            0 <= p5(c) <= 0x1_0000_0000_0000_0000_0000,
    {}
    vstd::arithmetic::div_mod::lemma_div_is_ordered(
        0xf5365c4833ccb6a4c90aff * p5(c),
        0xf5365c4833ccb6a4c90affint * 0x1_0000_0000_0000_0000_0000,
        0x1_0000_0000_0000_0000_0000,
    );
    vstd::arithmetic::div_mod::lemma_div_is_ordered(
        0,
        0xf5365c4833ccb6a4c90aff * p5(c),
        0x1_0000_0000_0000_0000_0000,
    );
    vstd::arithmetic::div_mod::lemma_div_by_multiple(
        0xf5365c4833ccb6a4c90aff,
        0x1_0000_0000_0000_0000_0000,
    );
    lemma_p11_256();
}

/// Ground evaluation of the 256th boundary power.
proof fn lemma_p11_256()
    ensures
        p11(256) == 0x100_0000_0000_0000_0000_0000,
{
    assert(256int * 256 == 65536) by (nonlinear_arith);
    assert(65536int * 65536 == 0x1_0000_0000) by (nonlinear_arith);
    assert(0x1_0000_0000int * 0x1_0000_0000 == 0x1_0000_0000_0000_0000) by (nonlinear_arith);
    assert(0x1_0000_0000_0000_0000int * 65536 == 0x1_0000_0000_0000_0000_0000)
        by (nonlinear_arith);
    assert(0x1_0000_0000_0000_0000_0000int * 256 == 0x100_0000_0000_0000_0000_0000)
        by (nonlinear_arith);
}

/// Ground evaluation of the zero power.
proof fn lemma_p11_0()
    ensures
        p11(0) == 0,
{
    assert(0int * 0 == 0) by (nonlinear_arith);
}

/// A gamma byte exists for every valid channel.
pub proof fn lemma_gamma_exists(c: int)
    requires
        0 <= c <= 65536,
    ensures
        is_gamma_byte(c, channel_byte(c)),
        0 <= channel_byte(c) <= 255,
{
    lemma_gamma_q_bounds(c);
    lemma_p11_0();
    lemma_gamma_search(c, 0);
    let y = choose|y: int| is_gamma_byte(c, y);
    lemma_channel_byte_is(c, y);
}

/// Search upward for the crossing of the gamma curve.
proof fn lemma_gamma_search(c: int, k: int)
    requires
        0 <= k <= 255,
        p11(k) <= gamma_q(c),
        gamma_q(c) < p11(256),
    ensures
        exists|y: int| is_gamma_byte(c, y),
    decreases 255 - k,
{
    if k == 255 {
        assert(is_gamma_byte(c, 255));
    } else if gamma_q(c) < p11(k + 1) {
        assert(is_gamma_byte(c, k));
    } else {
        lemma_gamma_search(c, k + 1);
    }
}

pub open spec fn color_display_spec(c: Color) -> int {
    channel_byte(c.x as int) * 65536 + channel_byte(c.y as int) * 256 + channel_byte(c.z as int)
}

/// The eleventh power of a small value, in machine arithmetic.
fn pow11_u128(y: u128) -> (r: u128)
    requires
        y <= 256,
    ensures
        r == p11(y as int),
{
    proof {
        let yi = y as int;
        assert(yi * yi <= 0x1_0000 && (yi * yi) * (yi * yi) <= 0x1_0000_0000 && ((yi * yi) * (yi
            * yi)) * ((yi * yi) * (yi * yi)) <= 0x1_0000_0000_0000_0000 && (((yi * yi) * (yi
            * yi)) * ((yi * yi) * (yi * yi))) * (yi * yi) <= 0x1_0000_0000_0000_0000_0000
            && ((((yi * yi) * (yi * yi)) * ((yi * yi) * (yi * yi))) * (yi * yi)) * yi
            <= 0x100_0000_0000_0000_0000_0000) by (nonlinear_arith)
            requires
                0 <= yi <= 256,
        {}
    }
    let y2 = y * y;
    let y4 = y2 * y2;
    let y8 = y4 * y4;
    y8 * y2 * y
}

/// One display channel from one color channel: the exact gamma-1/2.2
/// quantization, found by comparing eleventh powers against the scaled
/// gamma curve.
fn channel_from_color(c: i64) -> (r: u32)
    requires
        0 <= c <= FP_ONE,
    ensures
        r == channel_byte(c as int),
        r <= 255,
{
    let ghost ci = c as int;
    let u = c as u128;
    proof {
        assert(((u as int) * (u as int)) * ((u as int) * (u as int)) <= 0x1_0000_0000_0000_0000
            && (u as int) * (u as int) <= 0x1_0000_0000 && (((u as int) * (u as int)) * ((
        u as int) * (u as int))) * (u as int) <= 0x1_0000_0000_0000_0000_0000)
            by (nonlinear_arith)
            requires
                0 <= u as int <= 65536,
        {}
    }
    let u2 = u * u;
    let u4 = u2 * u2;
    let u5 = u4 * u;
    let a = u5 / 0x100_0000_0000u128;
    let b = u5 % 0x100_0000_0000u128;
    proof {
        vstd::arithmetic::div_mod::lemma_fundamental_div_mod(u5 as int, 0x100_0000_0000);
        vstd::arithmetic::div_mod::lemma_div_is_ordered(
            u5 as int,
            0x1_0000_0000_0000_0000_0000,
            0x100_0000_0000,
        );
        assert(0x100_0000_0000int * 0x100_0000_0000 == 0x1_0000_0000_0000_0000_0000)
            by (nonlinear_arith);
        vstd::arithmetic::div_mod::lemma_div_by_multiple(0x100_0000_0000, 0x100_0000_0000);
        assert(0xf5365c4833ccb6a4c90aff * (a as int) <= 0xf5365c4833ccb6a4c90aff
            * 0x100_0000_0000 && 0 <= 0xf5365c4833ccb6a4c90aff * (a as int)
            && 0xf5365c4833ccb6a4c90aff * (b as int) < 0xf5365c4833ccb6a4c90aff
            * 0x100_0000_0000 && 0 <= 0xf5365c4833ccb6a4c90aff * (b as int))
            by (nonlinear_arith)
            requires
                0 <= a as int <= 0x100_0000_0000,
                0 <= (b as int) < 0x100_0000_0000,
        {}
    }
    let ca: u128 = GAMMA_NUM * a;
    let cb: u128 = (GAMMA_NUM * b) / 0x100_0000_0000u128;
    let q: u128 = (ca + cb) / 0x100_0000_0000u128;
    proof {
        lemma_gamma_staged(u5 as int, a as int, b as int, q as int);
        assert(u5 as int == p5(ci));
        assert(q as int == gamma_q(ci));
        lemma_gamma_q_bounds(ci);
        lemma_gamma_exists(ci);
    }
    let mut y: u32 = 255;
    while pow11_u128(y as u128) > q
        invariant
            y <= 255,
            q == gamma_q(ci),
            0 <= ci <= 65536,
            gamma_q(ci) < p11(y + 1),
        decreases y,
    {
        proof {
            if y == 0 {
                lemma_p11_0();
                vstd::arithmetic::div_mod::lemma_div_is_ordered(
                    0,
                    0xf5365c4833ccb6a4c90aff * p5(ci),
                    0x1_0000_0000_0000_0000_0000,
                );
                assert(0 <= p5(ci) && 0 <= 0xf5365c4833ccb6a4c90aff * p5(ci))
                    by (nonlinear_arith)
                    requires
                        0 <= ci,
                        p5(ci) == ((ci * ci) * (ci * ci)) * ci,
                {}
                assert(false);
            }
        }
        y = y - 1;
    }
    proof {
        assert(is_gamma_byte(ci, y as int));
        lemma_channel_byte_is(ci, y as int);
    }
    y
}

/// The staged 40-bit divisions compute the 80-bit scaled quotient.
proof fn lemma_gamma_staged(u5: int, a: int, b: int, q: int)
    requires
        0 <= u5,
        a == u5 / 0x100_0000_0000,
        b == u5 % 0x100_0000_0000,
        q == (0xf5365c4833ccb6a4c90aff * a + (0xf5365c4833ccb6a4c90aff * b) / 0x100_0000_0000)
            / 0x100_0000_0000,
    ensures
        q == (0xf5365c4833ccb6a4c90aff * u5) / 0x1_0000_0000_0000_0000_0000,
{
    let g: int = 0xf5365c4833ccb6a4c90aff;
    let d: int = 0x100_0000_0000;
    let n = g * u5;
    vstd::arithmetic::div_mod::lemma_fundamental_div_mod(u5, d);
    assert(n == (g * a) * d + g * b) by (nonlinear_arith)
        requires
            u5 == d * a + b,
            n == g * u5,
    {}
    vstd::arithmetic::div_mod::lemma_fundamental_div_mod(g * b, d);
    let qb = (g * b) / d;
    let rb = (g * b) % d;
    assert(n == d * (g * a + qb) + rb) by (nonlinear_arith)
        requires
            n == (g * a) * d + g * b,
            g * b == d * qb + rb,
    {}
    assert(0 <= g * b) by (nonlinear_arith)
        requires
            0 <= g,
            0 <= b,
    {}
    vstd::arithmetic::div_mod::lemma_fundamental_div_mod_converse(n, d, g * a + qb, rb);
    assert(n / d == g * a + qb);
    assert(0 <= n) by (nonlinear_arith)
        requires
            0 <= u5,
            0 <= g,
            n == g * u5,
    {}
    vstd::arithmetic::div_mod::lemma_div_denominator(n, d, d);
    assert(d * d == 0x1_0000_0000_0000_0000_0000) by (nonlinear_arith)
        requires
            d == 0x100_0000_0000,
    {}
}

/// Display pixel of a rendered color.
pub fn color_display_from_color(c: Color) -> (r: ColorDisplay)
    requires
        color_wf(c),
    ensures
        r == color_display_spec(c),
{
    let rb = channel_from_color(c.x);
    let gb = channel_from_color(c.y);
    let bb = channel_from_color(c.z);
    rb * 65536 + gb * 256 + bb
}

/// Gamma-corrected display bytes of a rendered color: one byte per
/// channel, square-root gamma.
pub fn rgb_from_render(c: Color) -> (r: (u8, u8, u8))
    requires
        color_wf(c),
    ensures
        r.0 == channel_byte(c.x as int),
        r.1 == channel_byte(c.y as int),
        r.2 == channel_byte(c.z as int),
{
    (
        channel_from_color(c.x) as u8,
        channel_from_color(c.y) as u8,
        channel_from_color(c.z) as u8,
    )
}

/// Display pixel from already-quantized channel bytes.
pub fn color_display_from_rgb(r: u8, g: u8, b: u8) -> (d: ColorDisplay)
    ensures
        d == (r as int) * 65536 + (g as int) * 256 + b as int,
{
    (r as u32) * 65536 + (g as u32) * 256 + (b as u32)
}

/// The three channel bytes of a display pixel, most significant first.
pub open spec fn display_r(c: int) -> int {
    (c / 65536) % 256
}

pub open spec fn display_g(c: int) -> int {
    (c / 256) % 256
}

pub open spec fn display_b(c: int) -> int {
    c % 256
}

/// Flatten packed display pixels into R, G, B bytes.
pub fn u8_vec_from_buffer_display(bd: &Vec<ColorDisplay>) -> (v: Vec<u8>)
    ensures
        v@.len() == 3 * bd@.len(),
        forall|i: int|
            0 <= i < bd@.len() ==> v@[3 * i] == display_r(#[trigger] bd@[i] as int) && v@[3 * i
                + 1] == display_g(bd@[i] as int) && v@[3 * i + 2] == display_b(bd@[i] as int),
{
    let mut v: Vec<u8> = Vec::new();
    let n = bd.len();
    let mut i: usize = 0;
    while i < n
        invariant
            i <= n,
            n == bd@.len(),
            v@.len() == 3 * i,
            forall|t: int|
                0 <= t < i ==> v@[3 * t] == display_r(#[trigger] bd@[t] as int) && v@[3 * t + 1]
                    == display_g(bd@[t] as int) && v@[3 * t + 2] == display_b(bd@[t] as int),
        decreases n - i,
    {
        let c = bd[i];
        v.push(((c / 65536) % 256) as u8);
        v.push(((c / 256) % 256) as u8);
        v.push((c % 256) as u8);
        i = i + 1;
    }
    v
}

/// The integer square root exists for every nonnegative argument.
pub proof fn lemma_sqrt_floor_exists(n: int)
    requires
        n >= 0,
    ensures
        is_isqrt(n, sqrt_floor(n)),
    decreases n,
{
    if n == 0 {
        assert(is_isqrt(0, 0));
        lemma_sqrt_floor(0, 0);
    } else {
        lemma_sqrt_floor_exists(n - 1);
        let r = sqrt_floor(n - 1);
        if (r + 1) * (r + 1) <= n {
            assert(is_isqrt(n, r + 1)) by (nonlinear_arith)
                requires
                    r >= 0,
                    r * r <= n - 1,
                    (r + 1) * (r + 1) > n - 1,
                    (r + 1) * (r + 1) <= n,
            {}
            lemma_sqrt_floor(n, r + 1);
        } else {
            assert(is_isqrt(n, r));
            lemma_sqrt_floor(n, r);
        }
    }
}


/// Index of pixel (x, y) in a row-major pixel buffer of the given image width.
pub fn index_from_xy(image_width: u32, _image_height: u32, x: u32, y: u32) -> (r: usize)
    requires
        y * image_width + x <= usize::MAX,
    ensures
        r == y * image_width + x,
{
    (y as usize) * (image_width as usize) + (x as usize)
}

/// Number of chunks of size `y` needed to cover `x` items.
pub fn ceil_div(x: u32, y: u32) -> (r: u32)
    requires
        y > 0,
        x + y - 1 <= u32::MAX,
    ensures
        r == (x + y - 1) / (y as int),
        r * y >= x,
        x > 0 ==> (r - 1) * y < x,
        x == 0 ==> r == 0,
{
    let wide: u64 = (x as u64 + y as u64 - 1) / (y as u64);
    proof {
        let xi = x as int;
        let yi = y as int;
        let q = (xi + yi - 1) / yi;
        let m = (xi + yi - 1) % yi;
        vstd::arithmetic::div_mod::lemma_fundamental_div_mod(xi + yi - 1, yi);
        assert(q * yi + m == xi + yi - 1);
        assert(0 <= m < yi);
        assert(q >= 0 && q * yi >= xi && q <= xi + yi - 1 && (q - 1) * yi == q * yi - yi)
            by (nonlinear_arith)
            requires
                yi >= 1,
                xi >= 0,
                q * yi + m == xi + yi - 1,
                0 <= m < yi,
        {}
    }
    wide as u32
}

} // verus!
