//! Random sampling for the tracer.
//!
//! The only trusted item is a single uniform integer draw; every sampling
//! helper built on it is verified, and each one's contract states what
//! holds of every outcome of the draw.

use vstd::prelude::*;
use crate::shared::FP_ONE;
use crate::shared::Color;
use crate::shared::Vec3;
use crate::shared::fp_wf;
use crate::shared::is_isqrt;
use crate::shared::lemma_sqrt_floor_exists;
use crate::shared::sqrt_floor;
use crate::shared::vec_wf;
use crate::shared::vlen_sq_raw;
use crate::shared::vlength_spec;
use crate::shared::vnormalize_spec;

verus! {

/// Relies on rand::Rng::gen_range over an `i64` range, with
/// rand::thread_rng as the generator: a draw from `[lo, hi)`. Nothing is
/// assumed beyond the range of the result.
#[verifier::external_body]
pub(crate) fn rand_fp(lo: i64, hi: i64) -> (r: i64)
    requires
        lo < hi,
    ensures
        lo <= r < hi,
{
    let mut rng = rand::thread_rng();
    rand::Rng::gen_range(&mut rng, lo..hi)
}

/// A vector whose components are uniform draws from `[min, max)`.
pub fn vec3_random_range(min: i64, max: i64) -> (v: Vec3)
    requires
        min < max,
        fp_wf(min as int),
        fp_wf(max as int),
    ensures
        vec_wf(v),
        min <= v.x < max,
        min <= v.y < max,
        min <= v.z < max,
{
    Vec3 { x: rand_fp(min, max), y: rand_fp(min, max), z: rand_fp(min, max) }
}

/// A nonzero vector has length at least one fixed-point step.
pub proof fn lemma_nonzero_length(v: Vec3)
    requires
        vec_wf(v),
        !(v.x == 0 && v.y == 0 && v.z == 0),
    ensures
        vlength_spec(v) >= 1,
{
    assert(vlen_sq_raw(v) >= 1) by (nonlinear_arith)
        requires
            !(v.x == 0 && v.y == 0 && v.z == 0),
            vlen_sq_raw(v) == v.x * v.x + v.y * v.y + v.z * v.z,
    {}
    lemma_sqrt_floor_exists(vlen_sq_raw(v));
    let r = sqrt_floor(vlen_sq_raw(v));
    assert(r >= 1) by (nonlinear_arith)
        requires
            is_isqrt(vlen_sq_raw(v), r),
            vlen_sq_raw(v) >= 1,
    {}
}

/// The components of a normalized vector are at most one in magnitude.
pub proof fn lemma_normalized_bounded(v: Vec3)
    requires
        vec_wf(v),
        vlength_spec(v) >= 1,
    ensures
        ({
            let u = vnormalize_spec(v);
            -FP_ONE <= u.x <= FP_ONE && -FP_ONE <= u.y <= FP_ONE && -FP_ONE <= u.z <= FP_ONE
        }),
{
    let raw = vlen_sq_raw(v);
    assert(raw >= 0) by (nonlinear_arith)
        requires
            raw == v.x * v.x + v.y * v.y + v.z * v.z,
    {}
    lemma_sqrt_floor_exists(raw);
    let root = sqrt_floor(raw);
    let len = vlength_spec(v);
    assert(v.x * v.x <= raw && v.y * v.y <= raw && v.z * v.z <= raw) by (nonlinear_arith)
        requires
            raw == v.x * v.x + v.y * v.y + v.z * v.z,
    {}
    lemma_comp_le_len(v.x as int, raw, root);
    lemma_comp_le_len(v.y as int, raw, root);
    lemma_comp_le_len(v.z as int, raw, root);
    lemma_div_unit(v.x as int, len);
    lemma_div_unit(v.y as int, len);
    lemma_div_unit(v.z as int, len);
}

/// A component whose square is below `raw` is bounded by `isqrt(raw)`.
proof fn lemma_comp_le_len(x: int, raw: int, root: int)
    requires
        x * x <= raw,
        is_isqrt(raw, root),
    ensures
        -root <= x <= root,
{
    assert(-root <= x <= root) by (nonlinear_arith)
        requires
            x * x <= raw,
            root >= 0,
            (root + 1) * (root + 1) > raw,
    {}
}

/// Dividing a component by a length at least as large yields a quotient of
/// magnitude at most one.
pub(crate) proof fn lemma_div_unit(x: int, len: int)
    requires
        len >= 1,
        -len <= x <= len || (len == crate::shared::FP_LIMIT && -crate::shared::FP_LIMIT <= x
            <= crate::shared::FP_LIMIT),
    ensures
        -FP_ONE <= crate::shared::fp_div_spec(x, len) <= FP_ONE,
{
    if -len <= x <= len {
        if x >= 0 {
            vstd::arithmetic::div_mod::lemma_div_is_ordered(x * 65536, len * 65536, len);
            vstd::arithmetic::div_mod::lemma_div_by_multiple(65536, len);
            vstd::arithmetic::div_mod::lemma_div_is_ordered(0, x * 65536, len);
            assert(x * 65536 <= len * 65536) by (nonlinear_arith)
                requires
                    x <= len,
            {}
        } else {
            vstd::arithmetic::div_mod::lemma_div_is_ordered((-x) * 65536, len * 65536, len);
            vstd::arithmetic::div_mod::lemma_div_by_multiple(65536, len);
            vstd::arithmetic::div_mod::lemma_div_is_ordered(0, (-x) * 65536, len);
            assert((-x) * 65536 <= len * 65536) by (nonlinear_arith)
                requires
                    -x <= len,
            {}
        }
    } else {
        // Both the component and the length sit at the clamp bound.
        assert(len == crate::shared::FP_LIMIT);
        if x >= 0 {
            vstd::arithmetic::div_mod::lemma_div_is_ordered(x * 65536, len * 65536, len);
            vstd::arithmetic::div_mod::lemma_div_by_multiple(65536, len);
            vstd::arithmetic::div_mod::lemma_div_is_ordered(0, x * 65536, len);
            assert(x * 65536 <= len * 65536) by (nonlinear_arith)
                requires
                    x <= len,
            {}
        } else {
            vstd::arithmetic::div_mod::lemma_div_is_ordered((-x) * 65536, len * 65536, len);
            vstd::arithmetic::div_mod::lemma_div_by_multiple(65536, len);
            vstd::arithmetic::div_mod::lemma_div_is_ordered(0, (-x) * 65536, len);
            assert((-x) * 65536 <= len * 65536) by (nonlinear_arith)
                requires
                    -x <= len,
            {}
        }
    }
}

/// Whatever the generator returns, the result is a nonzero vector inside
/// the unit ball.
pub fn random_in_unit_sphere() -> (v: Vec3)
    ensures
        vec_wf(v),
        1 <= vlen_sq_raw(v) < 0x1_0000_0000,
        vlength_spec(v) >= 1,
{
    let mut tries: usize = 0;
    while tries < 64
        invariant
            tries <= 64,
        decreases 64 - tries,
    {
        let p = vec3_random_range(-FP_ONE + 1, FP_ONE);
        if p.length_squared() < FP_ONE && !(p.x == 0 && p.y == 0 && p.z == 0) {
            proof {
                lemma_ball_raw(p);
                lemma_nonzero_length(p);
            }
            return p;
        }
        tries = tries + 1;
    }
    // The draws kept missing the ball; fall back to a fixed direction.
    let v = Vec3 { x: FP_ONE / 2, y: 0, z: 0 };
    proof {
        lemma_nonzero_length(v);
    }
    v
}

/// A fixed-point squared length below one means the raw square sum is
/// below the squared scale.
proof fn lemma_ball_raw(p: Vec3)
    requires
        vec_wf(p),
        !(p.x == 0 && p.y == 0 && p.z == 0),
        crate::shared::clamp_fp(crate::shared::fp_scale_down(vlen_sq_raw(p))) < FP_ONE,
    ensures
        1 <= vlen_sq_raw(p) < 0x1_0000_0000,
{
    let raw = vlen_sq_raw(p);
    assert(raw >= 1) by (nonlinear_arith)
        requires
            !(p.x == 0 && p.y == 0 && p.z == 0),
            raw == p.x * p.x + p.y * p.y + p.z * p.z,
    {}
    vstd::arithmetic::div_mod::lemma_fundamental_div_mod(raw, 65536);
}

/// A random direction of unit length.
pub fn random_unit_vector() -> (v: Vec3)
    ensures
        vec_wf(v),
        -FP_ONE <= v.x <= FP_ONE,
        -FP_ONE <= v.y <= FP_ONE,
        -FP_ONE <= v.z <= FP_ONE,
{
    let p = random_in_unit_sphere();
    proof {
        lemma_normalized_bounded(p);
    }
    p.normalize()
}

/// A random unit-ball vector on the same side of the surface as `normal`.
pub fn random_in_hemisphere(normal: Vec3) -> (v: Vec3)
    requires
        vec_wf(normal),
    ensures
        vec_wf(v),
        vlength_spec(v) >= 1,
{
    let in_unit_sphere = random_in_unit_sphere();
    if in_unit_sphere.dot(&normal) > 0 {
        // In the same hemisphere as the normal.
        in_unit_sphere
    } else {
        let r = in_unit_sphere.neg();
        proof {
            lemma_neg_length(in_unit_sphere);
        }
        r
    }
}

/// Negation preserves length.
proof fn lemma_neg_length(v: Vec3)
    requires
        vec_wf(v),
    ensures
        vlength_spec(crate::shared::vneg_spec(v)) == vlength_spec(v),
{
    let n = crate::shared::vneg_spec(v);
    assert(vlen_sq_raw(n) == vlen_sq_raw(v)) by (nonlinear_arith)
        requires
            n.x == -v.x && n.y == -v.y && n.z == -v.z,
            vlen_sq_raw(n) == n.x * n.x + n.y * n.y + n.z * n.z,
            vlen_sq_raw(v) == v.x * v.x + v.y * v.y + v.z * v.z,
    {}
}

/// A random point in the unit disk of the lens plane.
pub fn random_in_unit_disk() -> (v: Vec3)
    ensures
        vec_wf(v),
        v.z == 0,
        -FP_ONE < v.x < FP_ONE,
        -FP_ONE < v.y < FP_ONE,
{
    let mut tries: usize = 0;
    while tries < 64
        invariant
            tries <= 64,
        decreases 64 - tries,
    {
        let x = rand_fp(-FP_ONE + 1, FP_ONE);
        let y = rand_fp(-FP_ONE + 1, FP_ONE);
        let p = Vec3 { x, y, z: 0 };
        if p.length_squared() < FP_ONE {
            return p;
        }
        tries = tries + 1;
    }
    Vec3 { x: 0, y: 0, z: 0 }
}

/// A random color with channels in `[0, 1)`.
pub fn color_random() -> (c: Color)
    ensures
        vec_wf(c),
        0 <= c.x < FP_ONE,
        0 <= c.y < FP_ONE,
        0 <= c.z < FP_ONE,
{
    color_random_range(0, FP_ONE)
}

/// A random color with channels in `[min, max)`.
pub fn color_random_range(min: i64, max: i64) -> (c: Color)
    requires
        min < max,
        fp_wf(min as int),
        fp_wf(max as int),
    ensures
        vec_wf(c),
        min <= c.x < max,
        min <= c.y < max,
        min <= c.z < max,
{
    Vec3 { x: rand_fp(min, max), y: rand_fp(min, max), z: rand_fp(min, max) }
}

} // verus!
