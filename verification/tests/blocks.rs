//! Block decomposition, spiral ordering, frame assembly and streaming.

use raytracer::assemble::BlockStream;
use raytracer::assemble::FrameAssembler;
use raytracer::render::ImageBlocker;
use raytracer::render::RenderBlock;
use raytracer::shared::ceil_div;
use raytracer::shared::index_from_xy;
use raytracer::spiral::spiral_blocks;

fn collect(width: u32, height: u32) -> Vec<RenderBlock> {
    let mut blocker = ImageBlocker::new(width, height);
    blocker.collect_blocks()
}

#[test]
fn ceil_div_values() {
    assert_eq!(ceil_div(0, 32), 0);
    assert_eq!(ceil_div(1, 32), 1);
    assert_eq!(ceil_div(32, 32), 1);
    assert_eq!(ceil_div(33, 32), 2);
    assert_eq!(ceil_div(64, 32), 2);
}

#[test]
fn index_from_xy_row_major() {
    assert_eq!(index_from_xy(10, 5, 0, 0), 0);
    assert_eq!(index_from_xy(10, 5, 3, 2), 23);
}

#[test]
fn blocker_covers_every_pixel_once() {
    let (w, h) = (70u32, 40u32);
    let blocks = collect(w, h);
    assert_eq!(blocks.len(), 3 * 2);
    let mut counts = vec![0u32; (w * h) as usize];
    for b in &blocks {
        assert!(b.x + b.width <= w);
        assert!(b.y + b.height <= h);
        assert!(b.width >= 1 && b.width <= 32);
        assert!(b.height >= 1 && b.height <= 32);
        for dy in 0..b.height {
            for dx in 0..b.width {
                counts[index_from_xy(w, h, b.x + dx, b.y + dy)] += 1;
            }
        }
    }
    assert!(counts.iter().all(|&c| c == 1));
}

#[test]
fn blocker_clips_edge_blocks() {
    let blocks = collect(33, 33);
    assert_eq!(blocks.len(), 4);
    assert_eq!(blocks[0], RenderBlock { x: 0, y: 0, width: 32, height: 32 });
    assert_eq!(blocks[1], RenderBlock { x: 32, y: 0, width: 1, height: 32 });
    assert_eq!(blocks[2], RenderBlock { x: 0, y: 32, width: 32, height: 1 });
    assert_eq!(blocks[3], RenderBlock { x: 32, y: 32, width: 1, height: 1 });
}

#[test]
fn blocker_next_enumerates_in_row_major_order() {
    let mut blocker = ImageBlocker::new(64, 32);
    let first = blocker.next().unwrap();
    let second = blocker.next().unwrap();
    assert_eq!(first, RenderBlock { x: 0, y: 0, width: 32, height: 32 });
    assert_eq!(second, RenderBlock { x: 32, y: 0, width: 32, height: 32 });
    assert!(blocker.next().is_none());
}

#[test]
fn spiral_is_permutation_of_blocks() {
    let (w, h) = (96u32, 96u32);
    let blocks = collect(w, h);
    let spiral = spiral_blocks(w, h, &blocks);
    assert_eq!(spiral.len(), blocks.len());
    // Every row-major block appears exactly once in the spiral order.
    for b in &blocks {
        assert_eq!(spiral.iter().filter(|s| *s == b).count(), 1);
    }
}

#[test]
fn spiral_starts_at_grid_center() {
    // A 3x3 block grid centers at block (1, 1), the block holding the
    // image's center.
    let blocks = collect(96, 96);
    let spiral = spiral_blocks(96, 96, &blocks);
    assert_eq!(spiral[0], blocks[(1 * 3 + 1) as usize]);
    // A 4x4 grid centers at block column 1, row 1.
    let blocks = collect(128, 128);
    let spiral = spiral_blocks(128, 128, &blocks);
    assert_eq!(spiral[0], blocks[(1 * 4 + 1) as usize]);
}

fn block_fill(b: &RenderBlock, base: u32) -> Vec<u32> {
    let mut v = Vec::new();
    for s in 0..(b.width * b.height) {
        v.push(base + s);
    }
    v
}

#[test]
fn assembler_writes_blocks_at_their_offsets() {
    let mut assembler = FrameAssembler::from_spiral(64, 64);
    let blocks = assembler.blocks.clone();
    for (i, b) in blocks.iter().enumerate() {
        let pixels = block_fill(b, (i as u32) << 16);
        assembler.record_block(i, &pixels);
    }
    assert!(assembler.is_complete());
    // Spot-check: each block's first pixel landed at the block origin.
    for (i, b) in blocks.iter().enumerate() {
        let idx = index_from_xy(64, 64, b.x, b.y);
        assert_eq!(assembler.buffer[idx], (i as u32) << 16);
    }
}

#[test]
fn assembly_is_independent_of_arrival_order() {
    let mut forward = FrameAssembler::from_spiral(64, 64);
    let mut backward = FrameAssembler::from_spiral(64, 64);
    let n = forward.blocks.len();
    for i in 0..n {
        let pixels = block_fill(&forward.blocks[i], 1000 * i as u32);
        forward.record_block(i, &pixels);
    }
    for i in (0..n).rev() {
        let pixels = block_fill(&backward.blocks[i], 1000 * i as u32);
        backward.record_block(i, &pixels);
    }
    assert!(forward.is_complete() && backward.is_complete());
    assert_eq!(forward.buffer, backward.buffer);
}

#[test]
fn stream_emits_results_in_submission_order() {
    let blocks = collect(96, 32);
    let n = blocks.len();
    let mut stream = BlockStream::new(blocks, n);
    let mut submitted = Vec::new();
    while let Some((i, b)) = stream.next_to_submit() {
        submitted.push((i, b));
    }
    assert_eq!(submitted.len(), n);
    // Nothing is ready until the earliest submission completes.
    assert!(stream.next_ready().is_none());
    // Complete them backwards; emission still follows submission order.
    for (i, b) in submitted.iter().rev() {
        stream.push_result(*i, block_fill(b, *i as u32));
    }
    let mut emitted = Vec::new();
    while let Some((b, pixels)) = stream.next_ready() {
        assert_eq!(pixels[0] as usize, emitted.len());
        emitted.push(b);
    }
    assert_eq!(emitted.len(), n);
    for (k, b) in emitted.iter().enumerate() {
        assert_eq!(*b, submitted[k].1);
    }
}

#[test]
fn stream_bounds_in_flight_submissions() {
    let blocks = collect(96, 96);
    let mut stream = BlockStream::new(blocks, 2);
    let a = stream.next_to_submit();
    let b = stream.next_to_submit();
    assert!(a.is_some() && b.is_some());
    // The queue depth is reached: no further submission until one is
    // pushed back and emitted.
    assert!(stream.next_to_submit().is_none());
    let (i, blk) = a.unwrap();
    stream.push_result(i, block_fill(&blk, 7));
    assert!(stream.next_ready().is_some());
    assert!(stream.next_to_submit().is_some());
}
