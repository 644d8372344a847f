//! Decomposition of an image into fixed-size rectangular render blocks.
//!
//! Blocks are enumerated row-major; edge blocks are clipped to the image
//! bounds. Together the blocks cover every pixel of the image exactly once.

use vstd::prelude::*;

verus! {

/// Side length of an unclipped render block, in pixels.
pub const BLOCK_SIZE: u32 = 32;

/// Coordinates for a block to render: a rectangular sub-region of an image.
#[derive(Copy, Clone, Debug, PartialEq, Eq, Structural)]
pub struct RenderBlock {
    pub x: u32,
    pub y: u32,
    pub width: u32,
    pub height: u32,
}

/// Number of block columns needed for an image of the given width.
pub open spec fn blocks_across(image_width: int) -> int {
    (image_width + 31) / 32
}

/// Number of block rows needed for an image of the given height.
pub open spec fn blocks_down(image_height: int) -> int {
    (image_height + 31) / 32
}

/// Total number of blocks for an image.
pub open spec fn block_count(image_width: int, image_height: int) -> int {
    blocks_across(image_width) * blocks_down(image_height)
}

/// The block with row-major index `i` for an image of the given dimensions.
pub open spec fn block_at(image_width: int, image_height: int, i: int) -> RenderBlock {
    let bx = i % blocks_across(image_width);
    let by = i / blocks_across(image_width);
    let x = bx * 32;
    let y = by * 32;
    let x_end = if (bx + 1) * 32 <= image_width { (bx + 1) * 32 } else { image_width };
    let y_end = if (by + 1) * 32 <= image_height { (by + 1) * 32 } else { image_height };
    RenderBlock {
        x: x as u32,
        y: y as u32,
        width: (x_end - x) as u32,
        height: (y_end - y) as u32,
    }
}

/// Does the block contain the pixel (px, py)?
pub open spec fn block_contains(b: RenderBlock, px: int, py: int) -> bool {
    &&& b.x <= px < b.x + b.width
    &&& b.y <= py < b.y + b.height
}

/// Image dimensions the blocker accepts: nonempty, and small enough that a
/// row-major pixel buffer and the block grid arithmetic fit the machine's
/// integer types.
pub open spec fn valid_dims(image_width: int, image_height: int) -> bool {
    &&& 0 < image_width <= 32768
    &&& 0 < image_height <= 32768
}

/// The block grid of a valid image is at most 1024 x 1024.
pub proof fn lemma_counts_bounded(image_width: int, image_height: int)
    requires
        valid_dims(image_width, image_height),
    ensures
        0 < blocks_across(image_width) <= 1024,
        0 < blocks_down(image_height) <= 1024,
        0 < block_count(image_width, image_height) <= 0x100000,
{
    lemma_blocks_across_covers(image_width);
    lemma_blocks_across_covers(image_height);
    vstd::arithmetic::div_mod::lemma_div_is_ordered(image_width + 31, 32799, 32);
    vstd::arithmetic::div_mod::lemma_div_is_ordered(image_height + 31, 32799, 32);
    assert(32799int / 32 == 1024);
    assert(0 < blocks_across(image_width) * blocks_down(image_height) <= 0x100000)
        by (nonlinear_arith)
        requires
            0 < blocks_across(image_width) <= 1024,
            0 < blocks_down(image_height) <= 1024,
    {}
}

/// The quotient `v / 32` is the unique `q` with `32*q <= v < 32*(q+1)`.
proof fn lemma_div32(v: int)
    requires
        v >= 0,
    ensures
        32 * (v / 32) <= v < 32 * (v / 32) + 32,
        v / 32 >= 0,
{
    vstd::arithmetic::div_mod::lemma_fundamental_div_mod(v, 32);
}

/// For positive `w`, the clipped column count covers `w`: the last block
/// column starts before `w`, and `blocks_across(w) * 32` reaches `w`.
proof fn lemma_blocks_across_covers(w: int)
    requires
        w > 0,
    ensures
        blocks_across(w) > 0,
        (blocks_across(w) - 1) * 32 < w <= blocks_across(w) * 32,
{
    let n = blocks_across(w);
    vstd::arithmetic::div_mod::lemma_fundamental_div_mod(w + 31, 32);
    let m = (w + 31) % 32;
    assert(n * 32 == w + 31 - m);
    assert((n - 1) * 32 == n * 32 - 32) by (nonlinear_arith);
}

/// Each block lies inside the image and is nonempty.
pub proof fn lemma_block_in_bounds(image_width: int, image_height: int, i: int)
    requires
        valid_dims(image_width, image_height),
        0 <= i < block_count(image_width, image_height),
    ensures
        ({
            let b = block_at(image_width, image_height, i);
            &&& 0 < b.width <= 32
            &&& 0 < b.height <= 32
            &&& b.x + b.width <= image_width
            &&& b.y + b.height <= image_height
        }),
{
    let bcx = blocks_across(image_width);
    let bcy = blocks_down(image_height);
    lemma_blocks_across_covers(image_width);
    lemma_blocks_across_covers(image_height);
    let bx = i % bcx;
    let by = i / bcx;
    vstd::arithmetic::div_mod::lemma_fundamental_div_mod(i, bcx);
    assert(0 <= bx < bcx);
    assert(0 <= by < bcy) by (nonlinear_arith)
        requires
            i == bcx * (i / bcx) + i % bcx,
            0 <= i % bcx < bcx,
            0 <= i < bcx * bcy,
            bcx > 0,
            by == i / bcx,
    {}
    assert(bx * 32 < image_width) by (nonlinear_arith)
        requires
            bx <= bcx - 1,
            bx >= 0,
            (bcx - 1) * 32 < image_width,
    {}
    assert(by * 32 < image_height) by (nonlinear_arith)
        requires
            by <= bcy - 1,
            by >= 0,
            (bcy - 1) * 32 < image_height,
    {}
    assert((bx + 1) * 32 == bx * 32 + 32) by (nonlinear_arith);
    assert((by + 1) * 32 == by * 32 + 32) by (nonlinear_arith);
}

/// The blocks partition the image: every pixel lies in exactly one block,
/// namely the one at index `(py/32) * blocks_across + (px/32)`.
pub proof fn lemma_blocks_partition(image_width: int, image_height: int, px: int, py: int)
    requires
        valid_dims(image_width, image_height),
        0 <= px < image_width,
        0 <= py < image_height,
    ensures
        ({
            let i = (py / 32) * blocks_across(image_width) + px / 32;
            &&& 0 <= i < block_count(image_width, image_height)
            &&& block_contains(block_at(image_width, image_height, i), px, py)
            &&& forall|j: int|
                0 <= j < block_count(image_width, image_height)
                    && block_contains(block_at(image_width, image_height, j), px, py) ==> j == i
        }),
{
    let bcx = blocks_across(image_width);
    let bcy = blocks_down(image_height);
    let qx = px / 32;
    let qy = py / 32;
    let i = qy * bcx + qx;
    lemma_blocks_across_covers(image_width);
    lemma_blocks_across_covers(image_height);
    lemma_div32(px);
    lemma_div32(py);
    // qx and qy are genuine block coordinates.
    assert(qx < bcx) by (nonlinear_arith)
        requires
            32 * qx <= px,
            px < image_width,
            image_width <= bcx * 32,
            32 * qx < 32 * bcx ==> qx < bcx,
    {}
    assert(qy < bcy) by (nonlinear_arith)
        requires
            32 * qy <= py,
            py < image_height,
            image_height <= bcy * 32,
            32 * qy < 32 * bcy ==> qy < bcy,
    {}
    vstd::arithmetic::div_mod::lemma_fundamental_div_mod_converse(i, bcx, qy, qx);
    assert(i < block_count(image_width, image_height)) by (nonlinear_arith)
        requires
            i == qy * bcx + qx,
            0 <= qx < bcx,
            0 <= qy < bcy,
            block_count(image_width, image_height) == bcx * bcy,
    {}
    assert((qx + 1) * 32 == qx * 32 + 32) by (nonlinear_arith);
    assert((qy + 1) * 32 == qy * 32 + 32) by (nonlinear_arith);
    assert(block_contains(block_at(image_width, image_height, i), px, py));
    // Uniqueness: any block containing the pixel has these block coordinates.
    assert forall|j: int|
        0 <= j < block_count(image_width, image_height)
            && block_contains(block_at(image_width, image_height, j), px, py) implies j == i by {
        let jx = j % bcx;
        let jy = j / bcx;
        vstd::arithmetic::div_mod::lemma_fundamental_div_mod(j, bcx);
        assert(0 <= jy && jy < bcy) by (nonlinear_arith)
            requires
                j == bcx * jy + jx,
                0 <= jx < bcx,
                0 <= j < bcx * bcy,
                bcx > 0,
        {}
        assert(jx * 32 < image_width && (jx + 1) * 32 == jx * 32 + 32) by (nonlinear_arith)
            requires
                0 <= jx <= bcx - 1,
                (bcx - 1) * 32 < image_width,
        {}
        assert(jy * 32 < image_height && (jy + 1) * 32 == jy * 32 + 32) by (nonlinear_arith)
            requires
                0 <= jy <= bcy - 1,
                (bcy - 1) * 32 < image_height,
        {}
        let b = block_at(image_width, image_height, j);
        assert(b.x == jx * 32 && b.y == jy * 32);
        assert(b.width <= 32 && b.height <= 32);
        assert(jx * 32 <= px < jx * 32 + 32);
        assert(jy * 32 <= py < jy * 32 + 32);
        vstd::arithmetic::div_mod::lemma_fundamental_div_mod_converse(px, 32, jx, px - 32 * jx);
        vstd::arithmetic::div_mod::lemma_fundamental_div_mod_converse(py, 32, jy, py - 32 * jy);
        assert(jx == qx && jy == qy);
        assert(j == bcx * jy + jx && i == qy * bcx + qx);
        assert(bcx * qy == qy * bcx) by (nonlinear_arith);
    }
}

/// Generates the series of `RenderBlock`s of up to
/// `BLOCK_SIZE` x `BLOCK_SIZE` pixels covering an image.
pub struct ImageBlocker {
    pub image_width: u32,
    pub image_height: u32,
    pub block_width: u32,
    pub block_height: u32,
    pub block_count_x: u32,
    pub block_count_y: u32,
    pub block_index: u32,
}

impl ImageBlocker {
    /// Well-formedness: the counts match the image dimensions.
    pub open spec fn wf(self) -> bool {
        &&& valid_dims(self.image_width as int, self.image_height as int)
        &&& self.block_width == 32
        &&& self.block_height == 32
        &&& self.block_count_x == blocks_across(self.image_width as int)
        &&& self.block_count_y == blocks_down(self.image_height as int)
        &&& self.block_index <= block_count(self.image_width as int, self.image_height as int)
    }

    /// How many blocks this blocker emits in total.
    pub open spec fn spec_count(self) -> int {
        block_count(self.image_width as int, self.image_height as int)
    }

    /// Index of the next block to be emitted.
    pub open spec fn spec_index(self) -> int {
        self.block_index as int
    }

    pub fn new(image_width: u32, image_height: u32) -> (r: ImageBlocker)
        requires
            valid_dims(image_width as int, image_height as int),
        ensures
            r.wf(),
            r.image_width == image_width,
            r.image_height == image_height,
            r.spec_index() == 0,
    {
        let block_width = BLOCK_SIZE;
        let block_height = BLOCK_SIZE;
        let block_count_x = crate::shared::ceil_div(image_width, block_width);
        let block_count_y = crate::shared::ceil_div(image_height, block_height);
        proof {
            lemma_blocks_across_covers(image_width as int);
            lemma_blocks_across_covers(image_height as int);
            assert(blocks_across(image_width as int) * blocks_down(image_height as int) >= 0)
                by (nonlinear_arith)
                requires
                    blocks_across(image_width as int) > 0,
                    blocks_down(image_height as int) > 0,
            {}
        }
        ImageBlocker {
            image_width,
            image_height,
            block_width,
            block_height,
            block_count_x,
            block_count_y,
            block_index: 0,
        }
    }

    /// Emit the next block in row-major order, or `None` when done.
    pub fn next(&mut self) -> (r: Option<RenderBlock>)
        requires
            old(self).wf(),
        ensures
            final(self).wf(),
            final(self).image_width == old(self).image_width,
            final(self).image_height == old(self).image_height,
            old(self).spec_index() < old(self).spec_count() ==> {
                &&& r == Some(
                    block_at(
                        old(self).image_width as int,
                        old(self).image_height as int,
                        old(self).spec_index(),
                    ),
                )
                &&& final(self).spec_index() == old(self).spec_index() + 1
            },
            old(self).spec_index() >= old(self).spec_count() ==> r is None && *final(self) == *old(
                self,
            ),
    {
        proof {
            lemma_counts_bounded(self.image_width as int, self.image_height as int);
        }
        let count: u64 = (self.block_count_x as u64) * (self.block_count_y as u64);
        proof {
            assert(count == self.spec_count());
        }
        if (self.block_index as u64) >= count {
            return None;
        }

        let ghost iw = self.image_width as int;
        let ghost ih = self.image_height as int;
        let ghost i = self.block_index as int;
        proof {
            lemma_blocks_across_covers(iw);
            lemma_blocks_across_covers(ih);
        }
        let block_x = self.block_index % self.block_count_x;
        let block_y = self.block_index / self.block_count_x;
        proof {
            vstd::arithmetic::div_mod::lemma_fundamental_div_mod(i, blocks_across(iw));
            assert(block_y < blocks_down(ih)) by (nonlinear_arith)
                requires
                    i == blocks_across(iw) * (i / blocks_across(iw)) + i % blocks_across(iw),
                    0 <= i % blocks_across(iw) < blocks_across(iw),
                    0 <= i < blocks_across(iw) * blocks_down(ih),
                    blocks_across(iw) > 0,
                    block_y == i / blocks_across(iw),
            {}
            assert(block_x * 32 < iw) by (nonlinear_arith)
                requires
                    block_x <= blocks_across(iw) - 1,
                    block_x >= 0,
                    (blocks_across(iw) - 1) * 32 < iw,
            {}
            assert(block_y * 32 < ih) by (nonlinear_arith)
                requires
                    block_y <= blocks_down(ih) - 1,
                    block_y >= 0,
                    (blocks_down(ih) - 1) * 32 < ih,
            {}
            assert((block_x + 1) * 32 <= blocks_across(iw) * 32) by (nonlinear_arith)
                requires
                    block_x + 1 <= blocks_across(iw),
            {}
            assert((block_y + 1) * 32 <= blocks_down(ih) * 32) by (nonlinear_arith)
                requires
                    block_y + 1 <= blocks_down(ih),
            {}
        }
        let x = block_x * self.block_width;
        let y = block_y * self.block_height;
        let x_next = (block_x + 1) * self.block_width;
        let y_next = (block_y + 1) * self.block_height;
        let x_end = if x_next <= self.image_width { x_next } else { self.image_width };
        let y_end = if y_next <= self.image_height { y_next } else { self.image_height };

        let rb = RenderBlock { x, y, width: x_end - x, height: y_end - y };

        self.block_index = self.block_index + 1;

        Some(rb)
    }

    /// All blocks of the image, in row-major order, starting from the
    /// blocker's current position.
    pub fn collect_blocks(&mut self) -> (v: Vec<RenderBlock>)
        requires
            old(self).wf(),
            old(self).spec_index() == 0,
        ensures
            final(self).wf(),
            final(self).image_width == old(self).image_width,
            final(self).image_height == old(self).image_height,
            v@.len() == old(self).spec_count(),
            forall|i: int|
                0 <= i < v@.len() ==> v@[i] == block_at(
                    old(self).image_width as int,
                    old(self).image_height as int,
                    i,
                ),
    {
        let mut v: Vec<RenderBlock> = Vec::new();
        loop
            invariant
                self.wf(),
                self.image_width == old(self).image_width,
                self.image_height == old(self).image_height,
                v@.len() == self.spec_index(),
                forall|i: int|
                    0 <= i < v@.len() ==> v@[i] == block_at(
                        self.image_width as int,
                        self.image_height as int,
                        i,
                    ),
            ensures
                self.wf(),
                self.image_width == old(self).image_width,
                self.image_height == old(self).image_height,
                v@.len() == self.spec_count(),
                forall|i: int|
                    0 <= i < v@.len() ==> v@[i] == block_at(
                        self.image_width as int,
                        self.image_height as int,
                        i,
                    ),
            decreases self.spec_count() - self.spec_index(),
        {
            match self.next() {
                Some(rb) => v.push(rb),
                None => {
                    break;
                },
            }
        }
        v
    }
}

/// Hits closer than this are treated as self-intersection noise.
pub const TRACE_EPSILON: i64 = 66;

/// Stand-in for an unbounded search interval.
pub const TRACE_INFINITY: i64 = crate::shared::FP_LIMIT;

/// The vertical blend factor of the background, from the ray direction.
pub open spec fn sky_t(dir: crate::shared::Vec3) -> int {
    let unit = crate::shared::vnormalize_spec(dir);
    let t0 = (unit.y + 65536) / 2;
    if t0 < 0 {
        0
    } else if t0 > 65536 {
        65536
    } else {
        t0
    }
}

/// The fixed vertical gradient ("sky") returned when a ray hits nothing:
/// white at the bottom blending to light blue at the top.
pub open spec fn sky_color_spec(dir: crate::shared::Vec3) -> crate::shared::Color {
    let t = sky_t(dir);
    crate::shared::Vec3 {
        x: (65536 - t + crate::shared::fp_mul_spec(t, 32768)) as i64,
        y: (65536 - t + crate::shared::fp_mul_spec(t, 45875)) as i64,
        z: (65536 - t + crate::shared::fp_mul_spec(t, 65536)) as i64,
    }
}

/// One gradient channel stays a valid color channel.
proof fn lemma_sky_channel(t: int, b: int)
    requires
        0 <= t <= 65536,
        0 <= b <= 65536,
    ensures
        0 <= 65536 - t + crate::shared::fp_mul_spec(t, b) <= 65536,
{
    assert(0 <= t * b <= t * 65536) by (nonlinear_arith)
        requires
            0 <= t,
            0 <= b <= 65536,
    {}
    vstd::arithmetic::div_mod::lemma_div_is_ordered(t * b, t * 65536, 65536);
    vstd::arithmetic::div_mod::lemma_div_is_ordered(0, t * b, 65536);
    vstd::arithmetic::div_mod::lemma_div_by_multiple(t, 65536);
}

/// The background gradient for a ray direction.
pub fn sky_color(dir: crate::shared::Vec3) -> (c: crate::shared::Color)
    requires
        crate::shared::vec_wf(dir),
        !(dir.x == 0 && dir.y == 0 && dir.z == 0),
    ensures
        c == sky_color_spec(dir),
        crate::shared::color_wf(c),
{
    proof {
        crate::rng::lemma_nonzero_length(dir);
        crate::rng::lemma_normalized_bounded(dir);
    }
    let unit = dir.normalize();
    let t0: i64 = (((unit.y + crate::shared::FP_ONE) as u64) / 2) as i64;
    let t: i64 = if t0 < 0 {
        0
    } else if t0 > crate::shared::FP_ONE {
        crate::shared::FP_ONE
    } else {
        t0
    };
    proof {
        lemma_sky_channel(t as int, 32768);
        lemma_sky_channel(t as int, 45875);
        lemma_sky_channel(t as int, 65536);
    }
    let x = crate::shared::FP_ONE - t + crate::shared::fp_mul(t, 32768);
    let y = crate::shared::FP_ONE - t + crate::shared::fp_mul(t, 45875);
    let z = crate::shared::FP_ONE - t + crate::shared::fp_mul(t, 65536);
    crate::shared::Vec3 { x, y, z }
}

/// Attenuating one color by another keeps it a color.
proof fn lemma_color_mul(a: crate::shared::Color, b: crate::shared::Color)
    requires
        crate::shared::color_wf(a),
        crate::shared::color_wf(b),
    ensures
        crate::shared::color_wf(crate::shared::vcmul_spec(a, b)),
{
    lemma_channel_mul(a.x as int, b.x as int);
    lemma_channel_mul(a.y as int, b.y as int);
    lemma_channel_mul(a.z as int, b.z as int);
}

/// Attenuating black yields black.
proof fn lemma_cmul_black(a: crate::shared::Color)
    ensures
        crate::shared::vcmul_spec(a, crate::shared::Vec3::spec_zero())
            == crate::shared::Vec3::spec_zero(),
{
    assert((a.x as int) * 0 == 0 && (a.y as int) * 0 == 0 && (a.z as int) * 0 == 0)
        by (nonlinear_arith);
}

proof fn lemma_channel_mul(a: int, b: int)
    requires
        0 <= a <= 65536,
        0 <= b <= 65536,
    ensures
        0 <= crate::shared::fp_mul_spec(a, b) <= 65536,
{
    assert(0 <= a * b <= 65536int * 65536) by (nonlinear_arith)
        requires
            0 <= a <= 65536,
            0 <= b <= 65536,
    {}
    vstd::arithmetic::div_mod::lemma_div_is_ordered(a * b, 65536int * 65536, 65536);
    vstd::arithmetic::div_mod::lemma_div_is_ordered(0, a * b, 65536);
    vstd::arithmetic::div_mod::lemma_div_by_multiple(65536, 65536);
}

/// Recursive bounded-depth path tracing: black when the depth budget is
/// exhausted; the scene's nearest hit scattered and attenuated while the
/// budget lasts; the background gradient when nothing is hit.
pub fn ray_color(ray: crate::shared::Ray, scene: &crate::scene::Scene, depth: i32) -> (c:
    crate::shared::Color)
    requires
        crate::scene::scene_wf(*scene),
        scene.bvh_built,
        crate::shared::ray_wf(ray),
    ensures
        crate::shared::color_wf(c),
        depth <= 0 ==> c == crate::shared::Vec3::spec_zero(),
        depth > 0 && crate::scene::scene_hit_loop(
            scene.objects@,
            RayQuery { ray, t_min: TRACE_EPSILON, t_max: TRACE_INFINITY },
            0,
            None,
        ) is None ==> c == sky_color_spec(ray.direction),
        depth > 0 && scene.objects@.len() == 0 ==> c == sky_color_spec(ray.direction),
        depth > 0 ==> (crate::scene::scene_hit_loop(
            scene.objects@,
            RayQuery { ray, t_min: TRACE_EPSILON, t_max: TRACE_INFINITY },
            0,
            None,
        ) matches Some(h) ==> exists|rec: crate::shared::Color|
            #[trigger] crate::shared::color_wf(rec) && c == crate::shared::vcmul_spec(
                crate::material::attenuation_of(h.material),
                rec,
            )),
    decreases
            (if depth >= 0 {
                depth as int
            } else {
                0
            }),
{
    if depth <= 0 {
        return crate::shared::Vec3::zero();
    }

    // Intersect scene.
    let query = RayQuery { ray, t_min: TRACE_EPSILON, t_max: TRACE_INFINITY };
    let hit_option = scene.intersect(query);

    // If we hit something, scatter and recurse.
    if let Some(hit) = hit_option {
        let scatter_option = hit.material.scatter(&ray, &hit);
        if let Some(scatter) = scatter_option {
            let rec = ray_color(scatter.scattered_ray, scene, depth - 1);
            proof {
                lemma_color_mul(scatter.attenuation, rec);
                assert(crate::shared::color_wf(rec));
            }
            return scatter.attenuation.cmul(&rec);
        }
        // Absorbed: black, the attenuation of nothing.
        proof {
            lemma_cmul_black(crate::material::attenuation_of(hit.material));
            assert(crate::shared::color_wf(crate::shared::Vec3::spec_zero()));
        }
        return crate::shared::Vec3::zero();
    }

    // Background.
    sky_color(ray.direction)
}

use crate::shared::RayQuery;

/// Renderer which generates pixels using the scene and camera.
pub struct Renderer {
    pub image_width: u32,
    pub image_height: u32,
    pub scene: crate::scene::Scene,
    pub camera: crate::camera::Camera,
    pub samples_per_pixel: u32,
    pub max_depth: i32,
}

/// Well-formed render parameters: image big enough to sample, scene
/// indexed, sane sampling counts.
pub open spec fn renderer_wf(r: Renderer) -> bool {
    &&& valid_dims(r.image_width as int, r.image_height as int)
    &&& r.image_width >= 2
    &&& r.image_height >= 2
    &&& crate::scene::scene_wf(r.scene)
    &&& r.scene.bvh_built
    &&& crate::camera::camera_wf(r.camera)
    &&& 1 <= r.samples_per_pixel
    &&& r.max_depth >= 0
}

/// A self-contained unit of work: everything needed to render one block.
pub struct Ctx {
    pub renderblock: RenderBlock,
    pub image_width: u32,
    pub image_height: u32,
    pub scene: crate::scene::Scene,
    pub camera: crate::camera::Camera,
    pub samples_per_pixel: u32,
    pub max_depth: i32,
}

/// A well-formed work unit: valid parameters and a nonempty block inside
/// the image.
pub open spec fn ctx_wf(c: Ctx) -> bool {
    &&& valid_dims(c.image_width as int, c.image_height as int)
    &&& c.image_width >= 2
    &&& c.image_height >= 2
    &&& crate::scene::scene_wf(c.scene)
    &&& c.scene.bvh_built
    &&& crate::camera::camera_wf(c.camera)
    &&& 1 <= c.samples_per_pixel
    &&& c.max_depth >= 0
    &&& 0 < c.renderblock.width <= 32
    &&& 0 < c.renderblock.height <= 32
    &&& c.renderblock.x + c.renderblock.width <= c.image_width
    &&& c.renderblock.y + c.renderblock.height <= c.image_height
}

/// An exact copy of a scene, for handing to a worker.
fn clone_scene(s: &crate::scene::Scene) -> (r: crate::scene::Scene)
    ensures
        r.objects@ == s.objects@,
        r.bounds@ == s.bounds@,
        r.bvh_built == s.bvh_built,
{
    let mut objects: Vec<crate::object::Sphere> = Vec::new();
    let n = s.objects.len();
    let mut i: usize = 0;
    while i < n
        invariant
            i <= n,
            n == s.objects@.len(),
            objects@ == s.objects@.take(i as int),
        decreases n - i,
    {
        objects.push(s.objects[i]);
        proof {
            assert(objects@ =~= s.objects@.take(i + 1 as int));
        }
        i = i + 1;
    }
    let mut bounds: Vec<crate::object::HittableBounds> = Vec::new();
    let m = s.bounds.len();
    let mut j: usize = 0;
    while j < m
        invariant
            j <= m,
            m == s.bounds@.len(),
            bounds@ == s.bounds@.take(j as int),
        decreases m - j,
    {
        bounds.push(s.bounds[j]);
        proof {
            assert(bounds@ =~= s.bounds@.take(j + 1 as int));
        }
        j = j + 1;
    }
    proof {
        assert(s.objects@.take(n as int) =~= s.objects@);
        assert(s.bounds@.take(m as int) =~= s.bounds@);
    }
    crate::scene::Scene { objects, bounds, bvh_built: s.bvh_built }
}

impl Renderer {
    pub fn new(
        image_width: u32,
        image_height: u32,
        samples_per_pixel: u32,
        scene: crate::scene::Scene,
        camera: crate::camera::Camera,
    ) -> (r: Renderer)
        requires
            valid_dims(image_width as int, image_height as int),
            image_width >= 2,
            image_height >= 2,
            crate::scene::scene_wf(scene),
            scene.bvh_built,
            crate::camera::camera_wf(camera),
            1 <= samples_per_pixel,
        ensures
            renderer_wf(r),
            r.image_width == image_width,
            r.image_height == image_height,
            r.scene == scene,
            r.camera == camera,
            r.samples_per_pixel == samples_per_pixel,
            r.max_depth == 50,
    {
        Renderer {
            image_width,
            image_height,
            scene,
            camera,
            samples_per_pixel,
            max_depth: 50,
        }
    }

    /// Split the frame into blocks, order them in the center-out spiral,
    /// and produce one self-contained work unit per block, in submission
    /// order, together with the assembler that collects their results
    /// into the frame buffer whatever order they complete in.
    pub fn render_frame_parallel(&self) -> (r: (Vec<Ctx>, crate::assemble::FrameAssembler))
        requires
            renderer_wf(*self),
        ensures
            ({
                let ctxs = r.0;
                let order = crate::spiral::spiral_order(
                    blocks_across(self.image_width as int),
                    blocks_down(self.image_height as int),
                );
                &&& ctxs@.len() == order.len()
                &&& forall|k: int|
                    0 <= k < ctxs@.len() ==> {
                        let c = #[trigger] ctxs@[k];
                        &&& c.renderblock == block_at(
                            self.image_width as int,
                            self.image_height as int,
                            order[k],
                        )
                        &&& ctx_wf(c)
                        &&& c.image_width == self.image_width
                        &&& c.image_height == self.image_height
                        &&& c.scene.objects@ == self.scene.objects@
                        &&& c.camera == self.camera
                        &&& c.samples_per_pixel == self.samples_per_pixel
                        &&& c.max_depth == self.max_depth
                    }
            }),
            r.1.wf(),
            r.1.covers_grid(),
            r.1.image_width == self.image_width,
            r.1.image_height == self.image_height,
            r.1.order@ == crate::spiral::spiral_order(
                blocks_across(self.image_width as int),
                blocks_down(self.image_height as int),
            ),
            forall|k: int| 0 <= k < r.1.received@.len() ==> !(#[trigger] r.1.received@[k]),
            r.1.blocks@.len() == r.0@.len(),
            forall|k: int|
                0 <= k < r.0@.len() ==> (#[trigger] r.1.blocks@[k]) == r.0@[k].renderblock,
    {
        let ghost iw = self.image_width as int;
        let ghost ih = self.image_height as int;
        let mut blocker = ImageBlocker::new(self.image_width, self.image_height);
        let blocks = blocker.collect_blocks();
        let spiral = crate::spiral::spiral_blocks(self.image_width, self.image_height, &blocks);
        let n = spiral.len();
        let mut ctxs: Vec<Ctx> = Vec::new();
        let ghost order = crate::spiral::spiral_order(blocks_across(iw), blocks_down(ih));
        proof {
            crate::spiral::lemma_spiral_order_is_permutation(blocks_across(iw), blocks_down(ih));
            lemma_counts_bounded(iw, ih);
            assert forall|t: int|
                0 <= t < order.len() implies 0 <= #[trigger] order[t] < block_count(iw, ih) by {
                assert(order.contains(order[t]));
            }
        }
        let mut k: usize = 0;
        while k < n
            invariant
                k <= n,
                n == spiral@.len(),
                renderer_wf(*self),
                iw == self.image_width as int,
                ih == self.image_height as int,
                order == crate::spiral::spiral_order(blocks_across(iw), blocks_down(ih)),
                n == order.len(),
                forall|t: int|
                    0 <= t < n ==> 0 <= #[trigger] order[t] < block_count(iw, ih),
                forall|t: int|
                    0 <= t < n ==> #[trigger] spiral@[t] == block_at(iw, ih, order[t]),
                ctxs@.len() == k,
                forall|t: int|
                    0 <= t < k ==> {
                        let c = #[trigger] ctxs@[t];
                        &&& c.renderblock == block_at(iw, ih, order[t])
                        &&& ctx_wf(c)
                        &&& c.image_width == self.image_width
                        &&& c.image_height == self.image_height
                        &&& c.scene.objects@ == self.scene.objects@
                        &&& c.camera == self.camera
                        &&& c.samples_per_pixel == self.samples_per_pixel
                        &&& c.max_depth == self.max_depth
                    },
            decreases n - k,
        {
            proof {
                assert(order.contains(order[k as int]));
                lemma_block_in_bounds(iw, ih, order[k as int]);
            }
            let ctx = Ctx {
                renderblock: spiral[k],
                image_width: self.image_width,
                image_height: self.image_height,
                scene: clone_scene(&self.scene),
                camera: self.camera,
                samples_per_pixel: self.samples_per_pixel,
                max_depth: self.max_depth,
            };
            ctxs.push(ctx);
            k = k + 1;
        }
        let assembler = crate::assemble::FrameAssembler::from_spiral(
            self.image_width,
            self.image_height,
        );
        proof {
            assert forall|t: int|
                0 <= t < ctxs@.len() implies (#[trigger] assembler.blocks@[t])
                == ctxs@[t].renderblock by {
                assert(assembler.blocks@[t] == block_at(iw, ih, order[t]));
            }
        }
        (ctxs, assembler)
    }
}

/// Componentwise sum of a sequence of colors.
pub open spec fn color_sum(s: Seq<crate::shared::Color>) -> (int, int, int)
    decreases s.len(),
{
    if s.len() == 0 {
        (0, 0, 0)
    } else {
        let t = color_sum(s.drop_last());
        (t.0 + s.last().x, t.1 + s.last().y, t.2 + s.last().z)
    }
}

/// Componentwise average of a nonempty sequence of colors.
pub open spec fn avg_color(s: Seq<crate::shared::Color>) -> crate::shared::Color {
    let t = color_sum(s);
    crate::shared::Vec3 {
        x: (t.0 / s.len() as int) as i64,
        y: (t.1 / s.len() as int) as i64,
        z: (t.2 / s.len() as int) as i64,
    }
}

/// The display pixel is the pack of an average of `spp` tracer sample
/// colors.
pub open spec fn pixel_sampled(pix: u32, spp: int) -> bool {
    exists|samples: Seq<crate::shared::Color>|
        #![trigger color_sum(samples)]
        samples.len() == spp && (forall|k: int|
            0 <= k < samples.len() ==> crate::shared::color_wf(#[trigger] samples[k])) && pix
            == crate::shared::color_display_spec(avg_color(samples))
}

/// The sky's blue channel is exactly full, whatever the direction.
proof fn lemma_sky_blue_full(dir: crate::shared::Vec3)
    ensures
        sky_color_spec(dir).z == 65536,
{
    let t = sky_t(dir);
    assert(0 <= t <= 65536);
    assert(0 <= t * 65536) by (nonlinear_arith)
        requires
            0 <= t,
    {}
    vstd::arithmetic::div_mod::lemma_div_by_multiple(t, 65536);
}

/// A full-intensity channel quantizes to the full display byte.
proof fn lemma_channel_byte_full()
    ensures
        crate::shared::channel_byte(65536) == 255,
{
    assert(65536int * 65536 == 0x1_0000_0000) by (nonlinear_arith);
    assert(0x1_0000_0000int * 0x1_0000_0000 == 0x1_0000_0000_0000_0000) by (nonlinear_arith);
    assert(0x1_0000_0000_0000_0000int * 65536 == 0x1_0000_0000_0000_0000_0000)
        by (nonlinear_arith);
    assert(crate::shared::p5(65536) == 0x1_0000_0000_0000_0000_0000);
    assert(0xf5365c4833ccb6a4c90affint * 0x1_0000_0000_0000_0000_0000 >= 0) by (nonlinear_arith);
    vstd::arithmetic::div_mod::lemma_div_by_multiple(
        0xf5365c4833ccb6a4c90aff,
        0x1_0000_0000_0000_0000_0000,
    );
    assert(crate::shared::gamma_q(65536) == 0xf5365c4833ccb6a4c90aff);
    assert(255int * 255 == 0xfe01) by (nonlinear_arith);
    assert(0xfe01int * 0xfe01 == 0xfc05fc01) by (nonlinear_arith);
    assert(0xfc05fc01int * 0xfc05fc01 == 0xf81bc845c81bf801) by (nonlinear_arith);
    assert(0xf81bc845c81bf801int * 0xfe01 == 0xf62c88d104d1882cf601) by (nonlinear_arith);
    assert(0xf62c88d104d1882cf601int * 255 == 0xf5365c4833ccb6a4c90aff) by (nonlinear_arith);
    assert(crate::shared::p11(255) == 0xf5365c4833ccb6a4c90aff);
    assert(256int * 256 == 65536) by (nonlinear_arith);
    assert(0x1_0000_0000int * 65536 == 0x1_0000_0000_0000) by (nonlinear_arith);
    assert(0x1_0000_0000_0000_0000int * 0x1_0000 == 0x1_0000_0000_0000_0000_0000)
        by (nonlinear_arith);
    assert(0x1_0000_0000_0000_0000_0000int * 256 == 0x100_0000_0000_0000_0000_0000)
        by (nonlinear_arith);
    assert(crate::shared::p11(256) == 0x100_0000_0000_0000_0000_0000);
    assert(crate::shared::is_gamma_byte(65536, 255));
    crate::shared::lemma_channel_byte_is(65536, 255);
}

/// The blue byte of a packed pixel is its low byte.
proof fn lemma_display_blue(rb: int, gb: int, bb: int)
    requires
        0 <= rb <= 255,
        0 <= gb <= 255,
        0 <= bb <= 255,
    ensures
        crate::shared::display_b(rb * 65536 + gb * 256 + bb) == bb,
{
    assert(rb * 65536 + gb * 256 + bb == 256 * (rb * 256 + gb) + bb) by (nonlinear_arith);
    vstd::arithmetic::div_mod::lemma_fundamental_div_mod_converse(
        rb * 65536 + gb * 256 + bb,
        256,
        rb * 256 + gb,
        bb,
    );
}

/// Render every pixel of one block: supersample each pixel through the
/// camera, average, and pack into display pixels, row-major within the
/// block. Each pixel is the display pack of an average of
/// `samples_per_pixel` tracer results; over an empty scene with depth to
/// spare, each is a background pixel, whose blue byte is always full.
pub fn render_block(ctx: &Ctx) -> (pixels: Vec<u32>)
    requires
        ctx_wf(*ctx),
    ensures
        pixels@.len() == ctx.renderblock.width * ctx.renderblock.height,
        forall|p: int| 0 <= p < pixels@.len() ==> #[trigger] pixels@[p] <= 0xffffff,
        forall|p: int|
            0 <= p < pixels@.len() ==> pixel_sampled(
                #[trigger] pixels@[p],
                ctx.samples_per_pixel as int,
            ),
        ctx.scene.objects@.len() == 0 && ctx.max_depth > 0 ==> forall|p: int|
            0 <= p < pixels@.len() ==> crate::shared::display_b(#[trigger] pixels@[p] as int)
                == 255,
{
    let b = ctx.renderblock;
    let iw = ctx.image_width;
    let ih = ctx.image_height;
    let samples = ctx.samples_per_pixel;
    let mut pixels: Vec<u32> = Vec::new();
    let mut py: u32 = 0;
    while py < b.height
        invariant
            py <= b.height,
            ctx_wf(*ctx),
            b == ctx.renderblock,
            iw == ctx.image_width,
            ih == ctx.image_height,
            samples == ctx.samples_per_pixel,
            pixels@.len() == py * b.width,
            forall|p: int| 0 <= p < pixels@.len() ==> #[trigger] pixels@[p] <= 0xffffff,
            forall|p: int|
                0 <= p < pixels@.len() ==> pixel_sampled(#[trigger] pixels@[p], samples as int),
            ctx.scene.objects@.len() == 0 && ctx.max_depth > 0 ==> forall|p: int|
                0 <= p < pixels@.len() ==> crate::shared::display_b(#[trigger] pixels@[p] as int)
                    == 255,
        decreases b.height - py,
    {
        let mut px: u32 = 0;
        while px < b.width
            invariant
                px <= b.width,
                py < b.height,
                ctx_wf(*ctx),
                b == ctx.renderblock,
                iw == ctx.image_width,
                ih == ctx.image_height,
                samples == ctx.samples_per_pixel,
                pixels@.len() == py * b.width + px,
                forall|p: int| 0 <= p < pixels@.len() ==> #[trigger] pixels@[p] <= 0xffffff,
                forall|p: int|
                    0 <= p < pixels@.len() ==> pixel_sampled(
                        #[trigger] pixels@[p],
                        samples as int,
                    ),
                ctx.scene.objects@.len() == 0 && ctx.max_depth > 0 ==> forall|p: int|
                    0 <= p < pixels@.len() ==> crate::shared::display_b(
                        #[trigger] pixels@[p] as int,
                    ) == 255,
            decreases b.width - px,
        {
            // Compute pixel location.
            let x: u32 = b.x + px;
            let y: u32 = b.y + py;

            // Set up supersampling.
            let u_base: i64 = crate::shared::fp_div(x as i64, (iw - 1) as i64);
            let v_base: i64 = crate::shared::fp_div((ih - y - 1) as i64, (ih - 1) as i64);
            let u_rand: i64 = crate::shared::fp_div(1, (iw - 1) as i64);
            let v_rand: i64 = crate::shared::fp_div(1, (ih - 1) as i64);
            proof {
                crate::rng::lemma_div_unit(x as int, (iw - 1) as int);
                crate::rng::lemma_div_unit((ih - y - 1) as int, (ih - 1) as int);
            }

            // Supersample this pixel.
            let mut acc_x: u64 = 0;
            let mut acc_y: u64 = 0;
            let mut acc_z: u64 = 0;
            let mut s: u32 = 0;
            let ghost mut drawn: Seq<crate::shared::Color> = Seq::empty();
            while s < samples
                invariant
                    s <= samples,
                    ctx_wf(*ctx),
                    b == ctx.renderblock,
                    iw == ctx.image_width,
                    ih == ctx.image_height,
                    0 <= u_base <= crate::shared::FP_ONE,
                    0 <= v_base <= crate::shared::FP_ONE,
                    0 <= u_rand <= crate::shared::FP_ONE,
                    0 <= v_rand <= crate::shared::FP_ONE,
                    acc_x <= s * 65536,
                    acc_y <= s * 65536,
                    acc_z <= s * 65536,
                    drawn.len() == s,
                    forall|k: int|
                        0 <= k < drawn.len() ==> crate::shared::color_wf(#[trigger] drawn[k]),
                    color_sum(drawn) == (acc_x as int, acc_y as int, acc_z as int),
                    ctx.scene.objects@.len() == 0 && ctx.max_depth > 0 ==> acc_z == s * 65536,
                decreases samples - s,
            {
                let du: i64 = if u_rand > 0 {
                    crate::rng::vec3_random_range(0, u_rand).x
                } else {
                    0
                };
                let dv: i64 = if v_rand > 0 {
                    crate::rng::vec3_random_range(0, v_rand).x
                } else {
                    0
                };
                let su: i64 = if u_base + du > crate::shared::FP_ONE {
                    crate::shared::FP_ONE
                } else {
                    u_base + du
                };
                let sv: i64 = if v_base + dv > crate::shared::FP_ONE {
                    crate::shared::FP_ONE
                } else {
                    v_base + dv
                };
                let ray = ctx.camera.get_ray(su, sv);
                // Start the primary ray from here.
                let c = ray_color(ray, &ctx.scene, ctx.max_depth);
                acc_x = acc_x + (c.x as u64);
                acc_y = acc_y + (c.y as u64);
                acc_z = acc_z + (c.z as u64);
                proof {
                    if ctx.scene.objects@.len() == 0 && ctx.max_depth > 0 {
                        lemma_sky_blue_full(ray.direction);
                        assert(c.z == 65536);
                    }
                    let prev = drawn;
                    drawn = drawn.push(c);
                    assert(drawn.drop_last() =~= prev);
                    assert(color_sum(drawn) == (acc_x as int, acc_y as int, acc_z as int));
                }
                s = s + 1;
            }
            let avg = crate::shared::Vec3 {
                x: (acc_x / (samples as u64)) as i64,
                y: (acc_y / (samples as u64)) as i64,
                z: (acc_z / (samples as u64)) as i64,
            };
            proof {
                lemma_avg_channel(acc_x as int, samples as int);
                lemma_avg_channel(acc_y as int, samples as int);
                lemma_avg_channel(acc_z as int, samples as int);
                lemma_display_small(avg);
                assert(avg == avg_color(drawn));
            }
            let pix = crate::shared::color_display_from_color(avg);
            proof {
                assert(pixel_sampled(pix, samples as int)) by {
                    assert(color_sum(drawn) == (acc_x as int, acc_y as int, acc_z as int));
                }
                if ctx.scene.objects@.len() == 0 && ctx.max_depth > 0 {
                    // Every sample's blue channel was full, so the average
                    // is, and so is the packed blue byte.
                    assert(acc_z == samples * 65536);
                    assert(samples * 65536 == 65536 * (samples as int)) by (nonlinear_arith);
                    vstd::arithmetic::div_mod::lemma_div_by_multiple(65536, samples as int);
                    assert(avg.z == 65536);
                    lemma_channel_byte_full();
                    crate::shared::lemma_gamma_exists(avg.x as int);
                    crate::shared::lemma_gamma_exists(avg.y as int);
                    lemma_display_blue(
                        crate::shared::channel_byte(avg.x as int),
                        crate::shared::channel_byte(avg.y as int),
                        crate::shared::channel_byte(avg.z as int),
                    );
                    assert(crate::shared::display_b(pix as int) == 255);
                }
            }
            pixels.push(pix);
            px = px + 1;
        }
        proof {
            assert(py * b.width + b.width == (py + 1) * b.width) by (nonlinear_arith);
        }
        py = py + 1;
    }
    proof {
        assert(b.height * b.width == b.width * b.height) by (nonlinear_arith);
    }
    pixels
}

/// The average of at most full-intensity samples is a valid channel.
proof fn lemma_avg_channel(acc: int, samples: int)
    requires
        0 <= acc <= samples * 65536,
        1 <= samples,
    ensures
        0 <= acc / samples <= 65536,
{
    vstd::arithmetic::div_mod::lemma_div_is_ordered(acc, samples * 65536, samples);
    vstd::arithmetic::div_mod::lemma_div_is_ordered(0, acc, samples);
    assert(samples * 65536 == 65536 * samples) by (nonlinear_arith);
    vstd::arithmetic::div_mod::lemma_div_by_multiple(65536, samples);
}

/// A packed display pixel never exceeds 24 bits.
proof fn lemma_display_small(c: crate::shared::Color)
    requires
        crate::shared::color_wf(c),
    ensures
        0 <= crate::shared::color_display_spec(c) <= 0xffffff,
{
    lemma_channel_byte(c.x as int);
    lemma_channel_byte(c.y as int);
    lemma_channel_byte(c.z as int);
}

proof fn lemma_channel_byte(v: int)
    requires
        0 <= v <= 65536,
    ensures
        0 <= crate::shared::channel_byte(v) <= 255,
{
    crate::shared::lemma_gamma_exists(v);
}

} // verus!
