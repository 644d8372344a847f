//! Collection of per-block render results into a full frame.
//!
//! Blocks are submitted in some order (typically the spiral order) and their
//! pixel results may arrive in any order; every result is copied to its
//! block's offset in the frame buffer, so the assembled frame is independent
//! of arrival order.

use vstd::prelude::*;
use crate::render::RenderBlock;
use crate::render::block_at;
use crate::render::block_contains;
use crate::render::block_count;
use crate::render::blocks_across;
use crate::render::lemma_block_in_bounds;
use crate::render::lemma_blocks_partition;
use crate::render::valid_dims;

verus! {

/// Row-major index of the pixel (px, py) in a full-frame buffer.
pub open spec fn pixel_index(iw: int, px: int, py: int) -> int {
    py * iw + px
}

/// Row-major block index of the block that owns the pixel (px, py).
pub open spec fn owner_block(iw: int, px: int, py: int) -> int {
    (py / 32) * blocks_across(iw) + px / 32
}

/// Row-major index of the s-th pixel of block `b` in the full-frame buffer.
pub open spec fn blk_pixel_index(iw: int, b: RenderBlock, s: int) -> int {
    pixel_index(iw, b.x + s % (b.width as int), b.y + s / (b.width as int))
}

/// A pixel inside the image has its buffer index inside the frame buffer.
proof fn lemma_pixel_index_bounds(iw: int, ih: int, px: int, py: int)
    requires
        0 <= px < iw,
        0 <= py < ih,
    ensures
        0 <= pixel_index(iw, px, py) < iw * ih,
{
    assert(0 <= py * iw + px && py * iw + px < iw * ih) by (nonlinear_arith)
        requires
            0 <= px < iw,
            0 <= py < ih,
    {}
}

/// Collects per-block results of one frame, in any arrival order, into a
/// row-major pixel buffer.
pub struct FrameAssembler {
    pub image_width: u32,
    pub image_height: u32,
    /// The frame's blocks, in submission order.
    pub blocks: Vec<RenderBlock>,
    /// Which submissions have been recorded so far.
    pub received: Vec<bool>,
    /// The assembled frame, row-major.
    pub buffer: Vec<u32>,
    /// Row-major block index of each submission.
    pub order: Ghost<Seq<int>>,
    /// The recorded pixel data, keyed by row-major block index.
    pub results: Ghost<Map<int, Seq<u32>>>,
}

impl FrameAssembler {
    /// The pixel (px, py) agrees with the recorded result of its block, if
    /// that result has been recorded.
    pub open spec fn pixel_ok(self, px: int, py: int) -> bool {
        let iw = self.image_width as int;
        let j = owner_block(iw, px, py);
        let b = block_at(iw, self.image_height as int, j);
        self.results@.dom().contains(j) ==> self.buffer@[pixel_index(iw, px, py)]
            == self.results@[j][(py - b.y) * b.width + (px - b.x)]
    }

    pub open spec fn wf(self) -> bool {
        let iw = self.image_width as int;
        let ih = self.image_height as int;
        &&& valid_dims(iw, ih)
        &&& self.order@.len() == self.blocks@.len()
        &&& self.received@.len() == self.blocks@.len()
        &&& self.buffer@.len() == iw * ih
        &&& self.order@.no_duplicates()
        &&& forall|i: int|
            0 <= i < self.order@.len() ==> 0 <= #[trigger] self.order@[i] < block_count(iw, ih)
                && self.blocks@[i] == block_at(iw, ih, self.order@[i])
        &&& forall|i: int|
            0 <= i < self.received@.len() ==> (self.received@[i] <==> self.results@.dom().contains(
                #[trigger] self.order@[i],
            ))
        &&& forall|j: int|
            self.results@.dom().contains(j) ==> exists|i: int|
                0 <= i < self.order@.len() && #[trigger] self.order@[i] == j
        &&& forall|j: int|
            #[trigger] self.results@.dom().contains(j) ==> self.results@[j].len() == block_at(
                iw,
                ih,
                j,
            ).width * block_at(iw, ih, j).height
        &&& forall|px: int, py: int|
            0 <= px < iw && 0 <= py < ih ==> #[trigger] self.pixel_ok(px, py)
    }

    /// Some submission carries the block with row-major index j.
    pub open spec fn has_submission(self, j: int) -> bool {
        exists|i: int| 0 <= i < self.order@.len() && #[trigger] self.order@[i] == j
    }

    /// The submissions cover every block of the grid.
    pub open spec fn covers_grid(self) -> bool {
        forall|j: int|
            0 <= j < block_count(self.image_width as int, self.image_height as int)
                ==> #[trigger] self.has_submission(j)
    }

    /// All submitted blocks have been recorded.
    pub open spec fn complete(self) -> bool {
        forall|i: int| 0 <= i < self.received@.len() ==> #[trigger] self.received@[i]
    }

    /// An assembler whose submission order is the given block list.
    fn with_blocks(image_width: u32, image_height: u32, blocks: Vec<RenderBlock>, Ghost(
        order,
    ): Ghost<Seq<int>>) -> (r: FrameAssembler)
        requires
            valid_dims(image_width as int, image_height as int),
            order.len() == blocks@.len(),
            order.no_duplicates(),
            forall|i: int|
                0 <= i < order.len() ==> 0 <= #[trigger] order[i] < block_count(
                    image_width as int,
                    image_height as int,
                ) && blocks@[i] == block_at(image_width as int, image_height as int, order[i]),
        ensures
            r.wf(),
            r.image_width == image_width,
            r.image_height == image_height,
            r.blocks@ == blocks@,
            r.order@ == order,
            r.results@ == Map::<int, Seq<u32>>::empty(),
            forall|i: int| 0 <= i < r.received@.len() ==> !(#[trigger] r.received@[i]),
    {
        let n = blocks.len();
        let mut received: Vec<bool> = Vec::new();
        let mut i: usize = 0;
        while i < n
            invariant
                i <= n,
                received@.len() == i,
                forall|t: int| 0 <= t < i ==> !(#[trigger] received@[t]),
            decreases n - i,
        {
            received.push(false);
            i = i + 1;
        }
        proof {
            assert((image_width as int) * (image_height as int) <= 0x40000000)
                by (nonlinear_arith)
                requires
                    0 < image_width as int <= 32768,
                    0 < image_height as int <= 32768,
            {}
        }
        let total: usize = (image_width as usize) * (image_height as usize);
        let mut buffer: Vec<u32> = Vec::new();
        let mut t: usize = 0;
        while t < total
            invariant
                t <= total,
                buffer@.len() == t,
            decreases total - t,
        {
            buffer.push(0);
            t = t + 1;
        }
        FrameAssembler {
            image_width,
            image_height,
            blocks,
            received,
            buffer,
            order: Ghost(order),
            results: Ghost(Map::empty()),
        }
    }

    /// An assembler over the spiral submission order.
    pub fn from_spiral(image_width: u32, image_height: u32) -> (r: FrameAssembler)
        requires
            valid_dims(image_width as int, image_height as int),
        ensures
            r.wf(),
            r.covers_grid(),
            r.image_width == image_width,
            r.image_height == image_height,
            r.order@ == crate::spiral::spiral_order(
                blocks_across(image_width as int),
                crate::render::blocks_down(image_height as int),
            ),
            forall|i: int| 0 <= i < r.received@.len() ==> !(#[trigger] r.received@[i]),
    {
        let ghost iw = image_width as int;
        let ghost ih = image_height as int;
        let mut blocker = crate::render::ImageBlocker::new(image_width, image_height);
        let row_major = blocker.collect_blocks();
        let blocks = crate::spiral::spiral_blocks(image_width, image_height, &row_major);
        let ghost bcx = blocks_across(iw);
        let ghost bcy = crate::render::blocks_down(ih);
        let ghost order = crate::spiral::spiral_order(bcx, bcy);
        proof {
            crate::spiral::lemma_spiral_order_is_permutation(bcx, bcy);
            assert forall|i: int| 0 <= i < order.len() implies 0 <= #[trigger] order[i]
                < block_count(iw, ih) && blocks@[i] == block_at(iw, ih, order[i]) by {
                assert(order.contains(order[i]));
            }
        }
        let r = Self::with_blocks(image_width, image_height, blocks, Ghost(order));
        proof {
            crate::spiral::lemma_spiral_order_is_permutation(bcx, bcy);
            assert forall|j: int| 0 <= j < block_count(iw, ih) implies #[trigger] r.has_submission(
                j,
            ) by {
                assert(order.contains(j));
                let i = choose|i: int| 0 <= i < order.len() && order[i] == j;
                assert(r.order@[i] == j);
            }
        }
        r
    }

    /// Record the result of submission `i`: copy its pixels to the block's
    /// offset in the frame buffer, whatever order results arrive in.
    pub fn record_block(&mut self, i: usize, pixels: &Vec<u32>)
        requires
            old(self).wf(),
            i < old(self).blocks@.len(),
            !old(self).received@[i as int],
            pixels@.len() == old(self).blocks@[i as int].width * old(self).blocks@[
                i as int
            ].height,
        ensures
            final(self).wf(),
            final(self).image_width == old(self).image_width,
            final(self).image_height == old(self).image_height,
            final(self).blocks@ == old(self).blocks@,
            final(self).order@ == old(self).order@,
            final(self).received@ == old(self).received@.update(i as int, true),
            final(self).results@ == old(self).results@.insert(
                old(self).order@[i as int],
                pixels@,
            ),
            final(self).covers_grid() == old(self).covers_grid(),
    {
        let ghost iw = self.image_width as int;
        let ghost ih = self.image_height as int;
        let ghost j = self.order@[i as int];
        let b: RenderBlock = self.blocks[i];
        proof {
            lemma_block_in_bounds(iw, ih, j);
        }
        let bw: u32 = b.width;
        let bh: u32 = b.height;
        proof {
            assert((bw as int) * (bh as int) <= 1024) by (nonlinear_arith)
                requires
                    0 < bw as int <= 32,
                    0 < bh as int <= 32,
            {}
        }
        let total: usize = (bw as usize) * (bh as usize);
        let mut s: usize = 0;
        while s < total
            invariant
                s <= total,
                total == bw * bh,
                total <= 1024,
                bw == b.width,
                bh == b.height,
                0 < b.width <= 32,
                0 < b.height <= 32,
                b.x + b.width <= iw,
                b.y + b.height <= ih,
                valid_dims(iw, ih),
                iw == self.image_width as int,
                ih == self.image_height as int,
                pixels@.len() == total,
                self.buffer@.len() == iw * ih,
                self.image_width == old(self).image_width,
                self.image_height == old(self).image_height,
                self.blocks@ == old(self).blocks@,
                self.received@ == old(self).received@,
                self.order@ == old(self).order@,
                self.results@ == old(self).results@,
                forall|t: int|
                    0 <= t < s ==> self.buffer@[blk_pixel_index(iw, b, t)] == pixels@[t],
                forall|px: int, py: int|
                    0 <= px < iw && 0 <= py < ih && !(block_contains(b, px, py) && (py - b.y)
                        * b.width + (px - b.x) < s) ==> self.buffer@[#[trigger] pixel_index(
                        iw,
                        px,
                        py,
                    )] == old(self).buffer@[pixel_index(iw, px, py)],
            decreases total - s,
        {
            let dx: u32 = (s as u32) % bw;
            let dy: u32 = (s as u32) / bw;
            proof {
                vstd::arithmetic::div_mod::lemma_fundamental_div_mod(s as int, bw as int);
                assert(dy < bh) by (nonlinear_arith)
                    requires
                        s as int == (bw as int) * ((s as int) / (bw as int)) + (s as int) % (
                        bw as int),
                        0 <= (s as int) % (bw as int) < bw as int,
                        0 <= (s as int) < (bw as int) * (bh as int),
                        bw > 0,
                        dy == (s as int) / (bw as int),
                        dx == (s as int) % (bw as int),
                {}
            }
            let px: u32 = b.x + dx;
            let py: u32 = b.y + dy;
            let ghost old_buf = self.buffer@;
            proof {
                assert((py as int) * iw + (px as int) < iw * ih && 0 <= (py as int) * iw + (
                px as int) && iw * ih <= 0x40000000) by (nonlinear_arith)
                    requires
                        0 <= (px as int) < iw,
                        0 <= (py as int) < ih,
                        iw <= 32768,
                        ih <= 32768,
                {}
            }
            let idx: usize = (py as usize) * (self.image_width as usize) + (px as usize);
            let val: u32 = pixels[s];
            self.buffer.set(idx, val);
            proof {
                assert(blk_pixel_index(iw, b, s as int) == idx);
                // Every earlier write is at a different buffer index.
                assert forall|t: int|
                    0 <= t < s + 1 implies self.buffer@[blk_pixel_index(iw, b, t)]
                    == pixels@[t] by {
                    if t < s {
                        let tx = t % (b.width as int);
                        let ty = t / (b.width as int);
                        vstd::arithmetic::div_mod::lemma_fundamental_div_mod(t, b.width as int);
                        assert(ty < bh) by (nonlinear_arith)
                            requires
                                t == (bw as int) * ty + tx,
                                0 <= tx < bw as int,
                                0 <= t < (bw as int) * (bh as int),
                                bw > 0,
                        {}
                        lemma_pixel_index_bounds(iw, ih, b.x + tx, b.y + ty);
                        assert(blk_pixel_index(iw, b, t) == pixel_index(iw, b.x + tx, b.y + ty));
                        if blk_pixel_index(iw, b, t) == idx {
                            vstd::arithmetic::div_mod::lemma_fundamental_div_mod_converse(
                                (b.y + ty) * iw + (b.x + tx),
                                iw,
                                b.y + ty,
                                b.x + tx,
                            );
                            vstd::arithmetic::div_mod::lemma_fundamental_div_mod_converse(
                                (py as int) * iw + px as int,
                                iw,
                                py as int,
                                px as int,
                            );
                            assert(tx == dx as int && ty == dy as int);
                            assert(false);
                        }
                        assert(self.buffer@[blk_pixel_index(iw, b, t)] == old_buf[blk_pixel_index(
                            iw,
                            b,
                            t,
                        )]);
                    }
                }
                assert forall|qx: int, qy: int|
                    0 <= qx < iw && 0 <= qy < ih && !(block_contains(b, qx, qy) && (qy - b.y)
                        * b.width + (qx - b.x) < s + 1) implies self.buffer@[
                    #[trigger] pixel_index(iw, qx, qy)] == old(self).buffer@[pixel_index(
                        iw,
                        qx,
                        qy,
                    )] by {
                    assert(0 <= pixel_index(iw, qx, qy) < iw * ih) by (nonlinear_arith)
                        requires
                            0 <= qx < iw,
                            0 <= qy < ih,
                            iw > 0,
                            ih > 0,
                    {}
                    if pixel_index(iw, qx, qy) == idx {
                        vstd::arithmetic::div_mod::lemma_fundamental_div_mod_converse(
                            pixel_index(iw, qx, qy),
                            iw,
                            qy,
                            qx,
                        );
                        vstd::arithmetic::div_mod::lemma_fundamental_div_mod_converse(
                            (py as int) * iw + px as int,
                            iw,
                            py as int,
                            px as int,
                        );
                        assert(qx == px as int && qy == py as int);
                        assert((qy - b.y) * b.width + (qx - b.x) == s) by (nonlinear_arith)
                            requires
                                qx == b.x + dx,
                                qy == b.y + dy,
                                s as int == (bw as int) * (dy as int) + dx as int,
                                bw == b.width,
                                dx < bw,
                        {}
                        assert(false);
                    }
                }
            }
            s = s + 1;
        }
        let ghost old_results = self.results@;
        proof {
            self.results@ = self.results@.insert(j, pixels@);
        }
        self.received.set(i, true);
        proof {
            let new_self = *self;
            assert forall|px: int, py: int|
                0 <= px < iw && 0 <= py < ih implies #[trigger] new_self.pixel_ok(px, py) by {
                lemma_blocks_partition(iw, ih, px, py);
                lemma_pixel_index_bounds(iw, ih, px, py);
                let o = owner_block(iw, px, py);
                let ob = block_at(iw, ih, o);
                if block_contains(b, px, py) {
                    // The pixel belongs to the block just recorded.
                    assert(block_contains(block_at(iw, ih, j), px, py));
                    assert(o == j);
                    let t = (py - b.y) * b.width + (px - b.x);
                    assert(0 <= t < total && t % (b.width as int) == px - b.x && t / (
                    b.width as int) == py - b.y) by (nonlinear_arith)
                        requires
                            b.x <= px < b.x + b.width,
                            b.y <= py < b.y + b.height,
                            t == (py - b.y) * b.width + (px - b.x),
                            total == (b.width as int) * (b.height as int),
                            b.width > 0,
                            b.height > 0,
                    {}
                    assert(blk_pixel_index(iw, b, t) == pixel_index(iw, px, py));
                    assert(new_self.buffer@[pixel_index(iw, px, py)] == pixels@[t]);
                } else {
                    // Untouched pixel: its owner is a different block, whose
                    // recorded result (if any) is unchanged.
                    if o == j {
                        assert(block_contains(ob, px, py));
                        assert(false);
                    }
                    assert(new_self.buffer@[pixel_index(iw, px, py)] == old(self).buffer@[
                        pixel_index(iw, px, py)]);
                    assert(old(self).pixel_ok(px, py));
                    if new_self.results@.dom().contains(o) {
                        assert(old_results.dom().contains(o));
                        assert(new_self.results@[o] == old_results[o]);
                    }
                }
            }
            // Receipt bookkeeping still matches the results map.
            assert forall|t: int|
                0 <= t < new_self.received@.len() implies (new_self.received@[t]
                <==> new_self.results@.dom().contains(#[trigger] new_self.order@[t])) by {
                if t != i as int {
                    if new_self.order@[t] == j {
                        assert(false);
                    }
                }
            }
            // Grid coverage depends only on the submission order, which is
            // unchanged.
            assert forall|jj: int| #[trigger] new_self.has_submission(jj) <==> old(
                self,
            ).has_submission(jj) by {
                if new_self.has_submission(jj) {
                    let t = choose|t: int|
                        0 <= t < new_self.order@.len() && new_self.order@[t] == jj;
                    assert(old(self).order@[t] == jj);
                }
                if old(self).has_submission(jj) {
                    let t = choose|t: int|
                        0 <= t < old(self).order@.len() && old(self).order@[t] == jj;
                    assert(new_self.order@[t] == jj);
                }
            }
            if old(self).covers_grid() {
                assert forall|jj: int|
                    0 <= jj < block_count(iw, ih) implies #[trigger] new_self.has_submission(
                    jj,
                ) by {
                    assert(old(self).has_submission(jj));
                }
            }
            if new_self.covers_grid() {
                assert forall|jj: int|
                    0 <= jj < block_count(iw, ih) implies #[trigger] old(self).has_submission(
                    jj,
                ) by {
                    assert(new_self.has_submission(jj));
                }
            }
        }
    }

    /// Has every submitted block been recorded?
    pub fn is_complete(&self) -> (r: bool)
        requires
            self.wf(),
        ensures
            r <==> self.complete(),
    {
        let n = self.received.len();
        let mut i: usize = 0;
        while i < n
            invariant
                i <= n,
                n == self.received@.len(),
                forall|t: int| 0 <= t < i ==> #[trigger] self.received@[t],
            decreases n - i,
        {
            if !self.received[i] {
                return false;
            }
            i = i + 1;
        }
        true
    }
}

/// Ordered reassembly is independent of arrival order: two assemblers for
/// the same image that received the same per-block results — in whatever
/// submission order, and whatever order the results arrived — hold
/// identical frame buffers once complete.
pub proof fn lemma_assembly_order_independent(a: FrameAssembler, b: FrameAssembler)
    requires
        a.wf(),
        b.wf(),
        a.complete(),
        b.complete(),
        a.covers_grid(),
        b.covers_grid(),
        a.image_width == b.image_width,
        a.image_height == b.image_height,
        a.results@ == b.results@,
    ensures
        a.buffer@ == b.buffer@,
{
    let iw = a.image_width as int;
    let ih = a.image_height as int;
    assert forall|idx: int| 0 <= idx < iw * ih implies a.buffer@[idx] == b.buffer@[idx] by {
        let px = idx % iw;
        let py = idx / iw;
        vstd::arithmetic::div_mod::lemma_fundamental_div_mod(idx, iw);
        assert(0 <= py < ih) by (nonlinear_arith)
            requires
                idx == iw * py + px,
                0 <= px < iw,
                0 <= idx < iw * ih,
                iw > 0,
        {}
        lemma_blocks_partition(iw, ih, px, py);
        let j = owner_block(iw, px, py);
        assert(a.has_submission(j));
        assert(b.has_submission(j));
        let i_a = choose|i: int| 0 <= i < a.order@.len() && #[trigger] a.order@[i] == j;
        let i_b = choose|i: int| 0 <= i < b.order@.len() && #[trigger] b.order@[i] == j;
        assert(a.received@[i_a] && b.received@[i_b]);
        assert(a.results@.dom().contains(j));
        assert(a.pixel_ok(px, py));
        assert(b.pixel_ok(px, py));
        assert(py * iw == iw * py) by (nonlinear_arith);
        assert(pixel_index(iw, px, py) == idx);
    }
    assert(a.buffer@ =~= b.buffer@);
}

/// Streams per-block results of one frame in submission order, however the
/// backend reorders their completion, while keeping the number of in-flight
/// submissions below a configured queue depth.
pub struct BlockStream {
    /// The frame's blocks, in submission order.
    pub blocks: Vec<RenderBlock>,
    /// Whether submission i has completed but not yet been emitted.
    pub arrived: Vec<bool>,
    /// Pixel data of arrived, unemitted submissions; empty placeholders
    /// elsewhere.
    pub store: Vec<Vec<u32>>,
    /// How many submissions have been handed to the backend.
    pub submitted: usize,
    /// How many results have been emitted, always a prefix.
    pub emitted: usize,
    /// Bound on submissions outstanding at once.
    pub queue_depth: usize,
    /// All completed results, by submission index.
    pub data: Ghost<Map<int, Seq<u32>>>,
}

impl BlockStream {
    pub open spec fn wf(self) -> bool {
        &&& self.arrived@.len() == self.blocks@.len()
        &&& self.store@.len() == self.blocks@.len()
        &&& self.emitted <= self.submitted <= self.blocks@.len()
        &&& self.queue_depth >= 1
        &&& forall|i: int| self.data@.dom().contains(i) ==> 0 <= i < self.submitted
        &&& forall|i: int|
            0 <= i < self.emitted ==> self.data@.dom().contains(i)
        &&& forall|i: int|
            0 <= i < self.blocks@.len() ==> (#[trigger] self.arrived@[i] <==> (
            self.data@.dom().contains(i) && i >= self.emitted))
        &&& forall|i: int|
            0 <= i < self.blocks@.len() && self.arrived@[i] ==> (#[trigger] self.store@[i])@
                == self.data@[i]
    }

    pub fn new(blocks: Vec<RenderBlock>, queue_depth: usize) -> (r: BlockStream)
        requires
            queue_depth >= 1,
        ensures
            r.wf(),
            r.blocks@ == blocks@,
            r.submitted == 0,
            r.emitted == 0,
            r.queue_depth == queue_depth,
            r.data@ == Map::<int, Seq<u32>>::empty(),
    {
        let n = blocks.len();
        let mut arrived: Vec<bool> = Vec::new();
        let mut store: Vec<Vec<u32>> = Vec::new();
        let mut i: usize = 0;
        while i < n
            invariant
                i <= n,
                arrived@.len() == i,
                store@.len() == i,
                forall|t: int| 0 <= t < i ==> !(#[trigger] arrived@[t]),
            decreases n - i,
        {
            arrived.push(false);
            store.push(Vec::new());
            i = i + 1;
        }
        BlockStream {
            blocks,
            arrived,
            store,
            submitted: 0,
            emitted: 0,
            queue_depth,
            data: Ghost(Map::empty()),
        }
    }

    /// May another submission go out without exceeding the queue depth?
    pub open spec fn spec_want_more(self) -> bool {
        self.submitted < self.blocks@.len() && self.submitted - self.emitted < self.queue_depth
    }

    /// The next block to hand to the backend, in submission order, or `None`
    /// if the frame is fully submitted or the queue is full.
    pub fn next_to_submit(&mut self) -> (r: Option<(usize, RenderBlock)>)
        requires
            old(self).wf(),
        ensures
            final(self).wf(),
            final(self).blocks@ == old(self).blocks@,
            final(self).emitted == old(self).emitted,
            final(self).queue_depth == old(self).queue_depth,
            final(self).data@ == old(self).data@,
            old(self).spec_want_more() ==> r == Some(
                (old(self).submitted, old(self).blocks@[old(self).submitted as int]),
            ) && final(self).submitted == old(self).submitted + 1,
            !old(self).spec_want_more() ==> r is None && *final(self) == *old(self),
    {
        if self.submitted < self.blocks.len() && self.submitted - self.emitted < self.queue_depth {
            let i = self.submitted;
            self.submitted = self.submitted + 1;
            Some((i, self.blocks[i]))
        } else {
            None
        }
    }

    /// Record the completion of submission `i`, in whatever order the
    /// backend finishes.
    pub fn push_result(&mut self, i: usize, pixels: Vec<u32>)
        requires
            old(self).wf(),
            old(self).emitted <= i < old(self).submitted,
            !old(self).data@.dom().contains(i as int),
        ensures
            final(self).wf(),
            final(self).blocks@ == old(self).blocks@,
            final(self).submitted == old(self).submitted,
            final(self).emitted == old(self).emitted,
            final(self).queue_depth == old(self).queue_depth,
            final(self).data@ == old(self).data@.insert(i as int, pixels@),
    {
        self.store.remove(i);
        self.store.insert(i, pixels);
        self.arrived.set(i, true);
        proof {
            self.data@ = self.data@.insert(i as int, pixels@);
        }
    }

    /// The earliest unemitted submission, if its result has arrived: results
    /// come out strictly in submission order.
    pub fn next_ready(&mut self) -> (r: Option<(RenderBlock, Vec<u32>)>)
        requires
            old(self).wf(),
        ensures
            final(self).wf(),
            final(self).blocks@ == old(self).blocks@,
            final(self).submitted == old(self).submitted,
            final(self).queue_depth == old(self).queue_depth,
            final(self).data@ == old(self).data@,
            ({
                let e = old(self).emitted as int;
                if e < old(self).blocks@.len() && old(self).data@.dom().contains(e) {
                    &&& r == Some((old(self).blocks@[e], old(self).store@[e]))
                    &&& old(self).store@[e]@ == old(self).data@[e]
                    &&& final(self).emitted == old(self).emitted + 1
                } else {
                    r is None && *final(self) == *old(self)
                }
            }),
    {
        if self.emitted < self.blocks.len() && self.arrived[self.emitted] {
            let e = self.emitted;
            let pixels = self.store.remove(e);
            self.store.insert(e, Vec::new());
            self.arrived.set(e, false);
            self.emitted = self.emitted + 1;
            proof {
                assert(final(self).store@ =~= old(self).store@.update(
                    e as int,
                    final(self).store@[e as int],
                ));
            }
            Some((self.blocks[e], pixels))
        } else {
            None
        }
    }
}

} // verus!
