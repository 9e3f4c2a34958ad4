//! Prediction of the pipeline's memory appetite.
//!
//! The pipeline holds at most `2N + 3` chunks in flight for a pool of size
//! `N`, plus one outstanding read buffer and one outstanding write buffer;
//! the advisory estimate therefore charges `2N + 5` chunk buffers.

use vstd::prelude::*;

verus! {

/// The suggested memory limit, 1 GiB.
pub const MEMORY_LIMIT: usize = 0x4000_0000;

/// Estimates the memory usage in bytes based on the configured chunk size
/// and pool size: `chunk_size` bytes for each of the `2N + 5` chunk buffers
/// that can be live at once.
pub fn estimated_memory_usage(chunk_size: usize, pool_size: u8) -> (r: usize)
    requires
        chunk_size * (2 * pool_size as int + 5) <= usize::MAX,
    ensures
        r == chunk_size * (2 * pool_size as int + 5),
{
    let total_pool_size = (pool_size as usize) * 2 + 5;
    chunk_size * total_pool_size
}

} // verus!
