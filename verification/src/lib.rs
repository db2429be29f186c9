//! Low-level allocation core for a garbage-collected heap: power-of-two-sized,
//! self-aligned blocks carved out of the system allocator, a descending bump
//! pointer serving object allocations inside one block, and a per-line
//! occupancy map that lets a partially live block be recycled.

use vstd::prelude::*;

pub mod block;
pub mod bump;
pub mod meta;

verus! {

/// Size in bytes of one block; a power of two, so a block allocated with this
/// alignment can be recovered from any interior address by masking low bits.
pub const BLOCK_SIZE: usize = 32768;

/// Size in bytes of one line, the granularity of the occupancy map.
pub const LINE_SIZE: usize = 128;

/// Number of lines in one block: BLOCK_SIZE / LINE_SIZE.
pub const LINE_COUNT: usize = 256;

/// Alignment in bytes that every address handed out by the bump allocator
/// keeps, whatever the requested size: the platform word.
pub const WORD_SIZE: usize = 8;

} // verus!
