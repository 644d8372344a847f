//! Payload-size analysis: how much data moves over the wire for a job.

use vstd::prelude::*;

verus! {

/// Bytes per pixel of a raw RGB frame.
pub const CHANNELS: u64 = 3;

/// In-memory size of one block descriptor.
pub const RENDER_BLOCK_BYTES: u64 = 16;

/// Scale between size units.
pub const UNIT_BOUND: u64 = 1024;

/// A human-meaningful size unit.
#[derive(Copy, Clone, Debug, PartialEq, Eq, Structural)]
pub enum SizeUnit {
    Bytes,
    Kibibytes,
    Mebibytes,
}

/// Bytes of one uncompressed RGB frame.
pub fn frame_bytes(width: u64, height: u64) -> (r: u64)
    requires
        width <= 65536,
        height <= 65536,
    ensures
        r == width * height * CHANNELS,
{
    proof {
        assert((width as int) * (height as int) * 3 <= 12884901888) by (nonlinear_arith)
            requires
                width <= 65536,
                height <= 65536,
        {}
        assert((width as int) * (height as int) <= 65536int * 65536) by (nonlinear_arith)
            requires
                width <= 65536,
                height <= 65536,
        {}
    }
    width * height * CHANNELS
}

/// Approximate number of blocks per frame.
pub fn blocks_per_frame(width: u64, height: u64, block_size: u64) -> (r: u64)
    requires
        width <= 65536,
        height <= 65536,
        block_size >= 1,
        block_size <= 65536,
    ensures
        r == (width * height) / (block_size * block_size),
{
    proof {
        assert((width as int) * (height as int) <= 65536int * 65536) by (nonlinear_arith)
            requires
                width <= 65536,
                height <= 65536,
        {}
        assert(1 <= (block_size as int) * (block_size as int) <= 65536int * 65536)
            by (nonlinear_arith)
            requires
                1 <= block_size <= 65536,
        {}
    }
    (width * height) / (block_size * block_size)
}

/// Bookkeeping bytes the block decomposition adds to one frame.
pub fn block_overhead_per_frame(width: u64, height: u64, block_size: u64) -> (r: u64)
    requires
        width <= 65536,
        height <= 65536,
        block_size >= 1,
        block_size <= 65536,
    ensures
        r == ((width * height) / (block_size * block_size)) * RENDER_BLOCK_BYTES,
{
    let n = blocks_per_frame(width, height, block_size);
    proof {
        assert((width as int) * (height as int) <= 65536int * 65536) by (nonlinear_arith)
            requires
                width <= 65536,
                height <= 65536,
        {}
        vstd::arithmetic::div_mod::lemma_div_is_ordered(
            (width as int) * (height as int),
            65536int * 65536,
            (block_size as int) * (block_size as int),
        );
        assert(1 <= (block_size as int) * (block_size as int)) by (nonlinear_arith)
            requires
                1 <= block_size,
        {}
        assert((n as int) * 16 <= 0x10_0000_0000_0000) by (nonlinear_arith)
            requires
                0 <= n as int <= 65536int * 65536,
        {}
    }
    n * RENDER_BLOCK_BYTES
}

/// Reduce a byte count to the largest unit that keeps the number below
/// the unit bound, exactly as a human-readable size is printed.
pub fn size_display(n: u64) -> (r: (u64, SizeUnit))
    ensures
        n < 1024 ==> r == (n, SizeUnit::Bytes),
        1024 <= n < 1048576 ==> r == (n / 1024, SizeUnit::Kibibytes),
        n >= 1048576 ==> r == ((n / 1024) / 1024, SizeUnit::Mebibytes),
{
    if n < UNIT_BOUND {
        return (n, SizeUnit::Bytes);
    }
    let k = n / UNIT_BOUND;
    if k < UNIT_BOUND {
        return (k, SizeUnit::Kibibytes);
    }
    (k / UNIT_BOUND, SizeUnit::Mebibytes)
}

} // verus!
