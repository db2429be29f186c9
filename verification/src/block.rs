//! Blocks: raw, power-of-two-sized, self-aligned memory regions obtained
//! from the system allocator and owned exclusively until released.

use vstd::prelude::*;
use vstd::arithmetic::div_mod::{lemma_fundamental_div_mod, lemma_mod_multiples_basic};

verus! {

/// Why a block request failed.
#[derive(Debug, PartialEq)]
pub enum BlockError {
    /// The requested size is not a power of two.
    BadRequest,
    /// The system allocator could not satisfy the request.
    OOM,
}

/// A memory region of power-of-two size whose start address is aligned to
/// that size, so the block holding any interior address can be recovered by
/// masking the address's low bits. The region is owned exclusively; dropping
/// the block returns it to the system allocator.
pub struct Block {
    /// Storage reserved from the system allocator. It covers at least
    /// `size` bytes from the self-aligned address `start` onwards.
    data: Vec<u8>,
    start: usize,
    size: usize,
}

/// Whether `n` is a power of two.
pub open spec fn is_pow2(n: int) -> bool
    decreases n,
{
    if n <= 0 {
        false
    } else if n == 1 {
        true
    } else {
        n % 2 == 0 && is_pow2(n / 2)
    }
}

/// Runtime check agreeing with `is_pow2`.
pub fn is_power_of_two(n: usize) -> (r: bool)
    ensures
        r == is_pow2(n as int),
{
    if n == 0 {
        return false;
    }
    let mut m: usize = n;
    while m > 1 && m % 2 == 0
        invariant
            1 <= m,
            is_pow2(n as int) == is_pow2(m as int),
        decreases m,
    {
        m = m / 2;
    }
    m == 1
}

/// Address of the vector's reserved buffer. Relies on `Vec::as_ptr`; the
/// value depends on the machine, so nothing is assumed of it and every use
/// checks its arithmetic explicitly.
#[verifier::external_body]
fn region_address(v: &Vec<u8>) -> usize {
    v.as_ptr() as usize
}

impl Block {
    /// Start address of the aligned region.
    pub closed spec fn start_addr(&self) -> usize {
        self.start
    }

    /// Size in bytes of the aligned region.
    pub closed spec fn block_size(&self) -> usize {
        self.size
    }

    /// A well-formed block has a power-of-two size, a start address aligned
    /// to that size, and an end within the address space.
    pub open spec fn wf(&self) -> bool {
        &&& is_pow2(self.block_size() as int)
        &&& self.start_addr() as int % self.block_size() as int == 0
        &&& self.start_addr() + self.block_size() <= usize::MAX
    }

    /// Requests a block of `size` bytes aligned to `size`. Fails with
    /// `BadRequest` exactly when `size` is not a power of two, before any
    /// system allocation is attempted; fails with `OOM` when the system
    /// allocator cannot satisfy the request.
    pub fn new(size: usize) -> (r: Result<Block, BlockError>)
        ensures
            (r matches Err(BlockError::BadRequest)) <==> !is_pow2(size as int),
            r matches Ok(b) ==> b.wf() && b.block_size() == size,
    {
        if !is_power_of_two(size) {
            return Err(BlockError::BadRequest);
        }
        Self::alloc_block(size)
    }

    /// Obtains the aligned region from the system allocator: reserves twice
    /// the size and places the block at the first address inside the
    /// reservation that is aligned to `size`. Any failure is `OOM`.
    pub fn alloc_block(size: usize) -> (r: Result<Block, BlockError>)
        requires
            is_pow2(size as int),
        ensures
            r matches Ok(b) ==> b.wf() && b.block_size() == size,
            r matches Err(e) ==> e == BlockError::OOM,
    {
        assert(size >= 1);
        if size > usize::MAX / 2 {
            return Err(BlockError::OOM);
        }
        let mut data: Vec<u8> = Vec::new();
        if data.try_reserve(2 * size).is_err() {
            return Err(BlockError::OOM);
        }
        let base: usize = region_address(&data);
        let rounded: usize = match base.checked_add(size - 1) {
            Some(r) => r,
            None => {
                return Err(BlockError::OOM);
            },
        };
        let start: usize = rounded - rounded % size;
        if start > usize::MAX - size {
            return Err(BlockError::OOM);
        }
        proof {
            lemma_fundamental_div_mod(rounded as int, size as int);
            lemma_mod_multiples_basic(rounded as int / size as int, size as int);
            assert(start as int == (rounded as int / size as int) * size as int);
            assert(start as int % size as int == 0);
        }
        Ok(Block { data, start, size })
    }

    /// Start address of the region, for pointer arithmetic by the owner;
    /// ownership of the region stays with the block.
    pub fn as_ptr(&self) -> (r: usize)
        ensures
            r == self.start_addr(),
    {
        self.start
    }

    /// Size in bytes the block was created with.
    pub fn size(&self) -> (r: usize)
        ensures
            r == self.block_size(),
    {
        self.size
    }

    /// Returns the region to the system allocator. Taking the block by value
    /// releases it with the exact size it was created with and leaves no
    /// handle through which a freed address could be reused.
    #[allow(unused_variables)]
    pub fn dealloc_block(block: Block) {
    }
}

} // verus!
