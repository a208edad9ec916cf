//! Launch geometry of kernels.

use vstd::arithmetic::div_mod::lemma_fundamental_div_mod;
use vstd::prelude::*;

verus! {

/// Kernel configuration for a GPU launch.
#[derive(Debug, Clone, Copy)]
pub struct LaunchConfig {
    /// Grid dimensions (x, y, z).
    pub grid: (u32, u32, u32),
    /// Block dimensions (x, y, z).
    pub block: (u32, u32, u32),
    /// Shared memory per block in bytes.
    pub shared_mem_bytes: usize,
}

/// The number of blocks of `size` that `n` items need.
pub open spec fn blocks_for(n: int, size: int) -> int {
    (n + size - 1) / size
}

/// The sum that [`blocks_for`] rounds fits a 32-bit number for `n` (its low 32 bits) and `size`.
pub open spec fn blocks_fit(n: usize, size: u32) -> bool {
    size > 0 && (n as u32) + size <= u32::MAX
}

/// The blocks of `size` hold all of `n` items, and one block fewer would not.
pub proof fn blocks_are_tight(n: int, size: int)
    requires
        0 <= n,
        0 < size,
    ensures
        n <= blocks_for(n, size) * size < n + size,
{
    let q = blocks_for(n, size);
    lemma_fundamental_div_mod(n + size - 1, size);
    assert(q * size == size * q) by (nonlinear_arith);
}

/// Blocks of `size` items that cover the low 32 bits of `n`.
fn block_count(n: usize, size: u32) -> (r: u32)
    requires
        blocks_fit(n, size),
    ensures
        r == blocks_for((n as u32) as int, size as int),
{
    let low: u32 = #[verifier::truncate]
    (n as u32);
    (low + size - 1) / size
}

/// Blocks as above, but never none.
pub fn some_blocks(n: usize, size: u32) -> (r: u32)
    requires
        blocks_fit(n, size),
    ensures
        r == if blocks_for((n as u32) as int, size as int) == 0 {
            1
        } else {
            blocks_for((n as u32) as int, size as int)
        },
        r >= 1,
        (n as u32) <= r * size,
        r > 1 ==> (r - 1) * size < (n as u32),
{
    let b: u32 = block_count(n, size);
    proof {
        let count = blocks_for((n as u32) as int, size as int);
        blocks_are_tight((n as u32) as int, size as int);
        assert((count - 1) * size == count * size - size) by (nonlinear_arith);
    }
    if b < 1 {
        1
    } else {
        b
    }
}

impl LaunchConfig {
    /// A one-dimensional launch for `n` elements. The grid counts the low 32 bits of `n`.
    pub fn elementwise(n: usize, threads_per_block: u32) -> (r: LaunchConfig)
        requires
            blocks_fit(n, threads_per_block),
        ensures
            r.grid.0 == blocks_for((n as u32) as int, threads_per_block as int),
            r.grid.1 == 1,
            r.grid.2 == 1,
            r.block == (threads_per_block, 1u32, 1u32),
            r.shared_mem_bytes == 0,
            (n as u32) <= r.grid.0 * r.block.0 < (n as u32) + r.block.0,
    {
        proof {
            blocks_are_tight((n as u32) as int, threads_per_block as int);
        }
        LaunchConfig {
            grid: (block_count(n, threads_per_block), 1, 1),
            block: (threads_per_block, 1, 1),
            shared_mem_bytes: 0,
        }
    }

    /// A two-dimensional launch for an `m` by `n` result in tiles, one warp per tile, with
    /// shared memory for two tiles of 4-byte elements.
    pub fn matmul(m: usize, n: usize, tile_m: usize, tile_n: usize) -> (r: LaunchConfig)
        requires
            blocks_fit(n, tile_n as u32),
            blocks_fit(m, tile_m as u32),
            tile_m * tile_n * 4 * 2 <= usize::MAX,
        ensures
            r.grid.0 == blocks_for((n as u32) as int, (tile_n as u32) as int),
            r.grid.1 == blocks_for((m as u32) as int, (tile_m as u32) as int),
            r.grid.2 == 1,
            r.block == (32u32, 1u32, 1u32),
            r.shared_mem_bytes == tile_m * tile_n * 4 * 2,
            (n as u32) <= r.grid.0 * (tile_n as u32) < (n as u32) + (tile_n as u32),
            (m as u32) <= r.grid.1 * (tile_m as u32) < (m as u32) + (tile_m as u32),
    {
        proof {
            blocks_are_tight((n as u32) as int, (tile_n as u32) as int);
            blocks_are_tight((m as u32) as int, (tile_m as u32) as int);
        }
        let wide: u32 = #[verifier::truncate]
        (tile_n as u32);
        let high: u32 = #[verifier::truncate]
        (tile_m as u32);
        assert(tile_m * tile_n <= usize::MAX);
        LaunchConfig {
            grid: (block_count(n, wide), block_count(m, high), 1),
            block: (32, 1, 1),
            shared_mem_bytes: (tile_m * tile_n * 4) * 2,
        }
    }
}

} // verus!
