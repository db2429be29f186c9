//! Descending bump allocation inside one block, and the recycle transition
//! that lets a partially live block serve further allocations.

use vstd::prelude::*;
use vstd::arithmetic::div_mod::{lemma_fundamental_div_mod, lemma_mod_multiples_basic};
use crate::block::{Block, BlockError, is_pow2};
use crate::meta::{BlockMeta, mark_frontier};
use crate::{BLOCK_SIZE, LINE_COUNT, LINE_SIZE, WORD_SIZE};

verus! {

/// One block under bump allocation: `cursor` is the next candidate high
/// address, `limit` the lowest address an allocation may occupy. Objects are
/// placed at descending, word-aligned addresses within `[limit, cursor]`;
/// the occupancy map is only read when the block is recycled.
pub struct BumpBlock {
    cursor: usize,
    limit: usize,
    block: Block,
    meta: BlockMeta,
}

/// `a` rounded down to the platform word alignment.
pub open spec fn word_align_down(a: int) -> int {
    a - a % (WORD_SIZE as int)
}

impl BumpBlock {
    /// Next candidate high address.
    pub closed spec fn cursor_spec(&self) -> usize {
        self.cursor
    }

    /// Lowest address an allocation may occupy.
    pub closed spec fn limit_spec(&self) -> usize {
        self.limit
    }

    /// The owned block.
    pub closed spec fn block_of(&self) -> Block {
        self.block
    }

    /// The owned occupancy map.
    pub closed spec fn meta_of(&self) -> BlockMeta {
        self.meta
    }

    /// Start address of the owned block.
    pub open spec fn block_start(&self) -> usize {
        self.block_of().start_addr()
    }

    /// One-past-the-end address of the owned block.
    pub open spec fn block_end(&self) -> int {
        self.block_start() + BLOCK_SIZE
    }

    /// The owned block is well formed and of the configured size, the two
    /// frontiers sit ordered between the block's bounds, and every line is
    /// tracked by the occupancy map.
    pub open spec fn wf(&self) -> bool {
        &&& self.block_of().wf()
        &&& self.block_of().block_size() == BLOCK_SIZE
        &&& self.block_start() <= self.limit_spec()
        &&& self.limit_spec() <= self.cursor_spec()
        &&& self.cursor_spec() <= self.block_end()
        &&& self.meta_of().wf()
    }
}

/// Exactly when an allocation of `size` bytes fits in state `pre`: the
/// subtraction from the cursor stays in range, and the word-aligned
/// candidate does not fall below the limit.
pub open spec fn alloc_fits(pre: BumpBlock, size: usize) -> bool {
    &&& size <= pre.cursor_spec()
    &&& word_align_down(pre.cursor_spec() - size) >= pre.limit_spec()
}

/// A successful allocation: `addr` is the cursor moved down by `size` bytes
/// and rounded to word alignment, it lies at or above the limit, the
/// reserved range `[addr, addr + size)` ends at or below the old cursor, and
/// the new state differs only in the cursor, which drops onto `addr`.
pub open spec fn alloc_success(pre: BumpBlock, size: usize, addr: usize, post: BumpBlock) -> bool {
    &&& alloc_fits(pre, size)
    &&& addr == word_align_down(pre.cursor_spec() - size)
    &&& addr as int % (WORD_SIZE as int) == 0
    &&& pre.limit_spec() <= addr
    &&& addr + size <= pre.cursor_spec()
    &&& post.cursor_spec() == addr
    &&& post.limit_spec() == pre.limit_spec()
    &&& post.block_of() == pre.block_of()
    &&& post.meta_of() == pre.meta_of()
}

/// One observed call of `inner_alloc`: either a success, or a refusal that
/// leaves the state untouched and happens exactly when nothing fits.
pub open spec fn alloc_step(pre: BumpBlock, size: usize, r: Option<usize>, post: BumpBlock) -> bool {
    match r {
        Some(addr) => alloc_success(pre, size, addr, post),
        None => post == pre && !alloc_fits(pre, size),
    }
}

impl BumpBlock {
    /// A fresh bump block over a newly created block of `BLOCK_SIZE` bytes:
    /// limit at the block's start, cursor at its end, no line marked. Fails
    /// only with `OOM`, propagated unchanged from the system allocator.
    pub fn new() -> (r: Result<BumpBlock, BlockError>)
        ensures
            r matches Ok(b) ==> {
                &&& b.wf()
                &&& b.limit_spec() == b.block_start()
                &&& b.cursor_spec() == b.block_end()
                &&& forall|i: int| 0 <= i < LINE_COUNT ==> !b.meta_of()@[i]
            },
            r matches Err(e) ==> e == BlockError::OOM,
    {
        proof {
            reveal_with_fuel(is_pow2, 17);
            assert(is_pow2(BLOCK_SIZE as int));
        }
        let block = match Block::new(BLOCK_SIZE) {
            Ok(b) => b,
            Err(e) => {
                return Err(e);
            },
        };
        let start: usize = block.as_ptr();
        let cursor: usize = start + BLOCK_SIZE;
        Ok(BumpBlock { cursor, limit: start, block, meta: BlockMeta::new() })
    }

    /// Reserves `alloc_size` bytes at the highest word-aligned address that
    /// fits between `limit` and `cursor`, dropping the cursor onto it.
    /// Returns `None`, changing nothing, when no such address exists. The
    /// reserved range is never written here: placing bytes in it is the
    /// caller's business.
    pub fn inner_alloc(&mut self, alloc_size: usize) -> (r: Option<usize>)
        requires
            old(self).wf(),
        ensures
            final(self).wf(),
            alloc_step(*old(self), alloc_size, r, *final(self)),
    {
        let cursor: usize = self.cursor;
        if alloc_size > cursor {
            return None;
        }
        let raw: usize = cursor - alloc_size;
        let next: usize = raw - raw % WORD_SIZE;
        proof {
            lemma_fundamental_div_mod(raw as int, WORD_SIZE as int);
            lemma_mod_multiples_basic(raw as int / WORD_SIZE as int, WORD_SIZE as int);
            assert(next as int == (raw as int / WORD_SIZE as int) * WORD_SIZE as int);
            assert(next as int % (WORD_SIZE as int) == 0);
        }
        if next < self.limit {
            None
        } else {
            self.cursor = next;
            Some(next)
        }
    }

    /// Returns a block whose occupancy map the collector has rewritten to
    /// the allocating state: the limit rises to the first line boundary
    /// after the last live line, the cursor resets to the block's end, and
    /// `meta` becomes the owned map, protecting the live prefix from being
    /// overwritten.
    pub fn recycle(&mut self, meta: BlockMeta)
        requires
            old(self).wf(),
            meta.wf(),
        ensures
            final(self).wf(),
            final(self).block_of() == old(self).block_of(),
            final(self).meta_of() == meta,
            final(self).cursor_spec() == final(self).block_end(),
            final(self).limit_spec() == final(self).block_start() + mark_frontier(meta@)
                * LINE_SIZE,
    {
        proof {
            crate::meta::lemma_mark_frontier(meta@);
        }
        let line: usize = meta.find_limit(0);
        let start: usize = self.block.as_ptr();
        self.limit = start + line * LINE_SIZE;
        self.cursor = start + BLOCK_SIZE;
        self.meta = meta;
    }

    /// Current cursor address.
    pub fn cursor(&self) -> (r: usize)
        ensures
            r == self.cursor_spec(),
    {
        self.cursor
    }

    /// Current limit address.
    pub fn limit(&self) -> (r: usize)
        ensures
            r == self.limit_spec(),
    {
        self.limit
    }

    /// Start address of the owned block.
    pub fn start(&self) -> (r: usize)
        ensures
            r == self.block_start(),
    {
        self.block.as_ptr()
    }
}

/// A chain of `inner_alloc` observations from `states[0]`: requesting
/// `sizes[i]` in `states[i]` gave `results[i]` and left `states[i + 1]`.
pub open spec fn alloc_chain(
    states: Seq<BumpBlock>,
    sizes: Seq<usize>,
    results: Seq<Option<usize>>,
) -> bool {
    &&& states.len() == sizes.len() + 1
    &&& results.len() == sizes.len()
    &&& forall|i: int|
        0 <= i < sizes.len() ==> alloc_step(states[i], sizes[i], #[trigger] results[i], states[i + 1])
}

proof fn lemma_chain_monotone(
    states: Seq<BumpBlock>,
    sizes: Seq<usize>,
    results: Seq<Option<usize>>,
    i: int,
    j: int,
)
    requires
        alloc_chain(states, sizes, results),
        0 <= i <= j < states.len(),
    ensures
        states[j].limit_spec() == states[i].limit_spec(),
        states[j].cursor_spec() <= states[i].cursor_spec(),
    decreases j - i,
{
    if i < j {
        lemma_chain_monotone(states, sizes, results, i, j - 1);
        assert(alloc_step(states[j - 1], sizes[j - 1], results[j - 1], states[j]));
    }
}

/// Law: along any chain of allocations the limit never moves, the cursor
/// never rises, and every address handed out lies at or above the limit the
/// chain started with. In particular, after recycling raised the limit, no
/// later allocation returns an address below it.
pub proof fn lemma_chain_respects_limit(
    states: Seq<BumpBlock>,
    sizes: Seq<usize>,
    results: Seq<Option<usize>>,
)
    requires
        alloc_chain(states, sizes, results),
    ensures
        forall|k: int|
            0 <= k < states.len() ==> #[trigger] states[k].limit_spec() == states[0].limit_spec(),
        forall|k: int|
            0 <= k < states.len() ==> #[trigger] states[k].cursor_spec() <= states[0].cursor_spec(),
        forall|k: int|
            0 <= k < results.len() ==> (#[trigger] results[k] matches Some(addr) ==> states[0].limit_spec()
                <= addr),
{
    assert forall|k: int| 0 <= k < states.len() implies #[trigger] states[k].limit_spec()
        == states[0].limit_spec() by {
        lemma_chain_monotone(states, sizes, results, 0, k);
    }
    assert forall|k: int| 0 <= k < states.len() implies #[trigger] states[k].cursor_spec()
        <= states[0].cursor_spec() by {
        lemma_chain_monotone(states, sizes, results, 0, k);
    }
    assert forall|k: int|
        0 <= k < results.len() implies (#[trigger] results[k] matches Some(addr)
        ==> states[0].limit_spec() <= addr) by {
        assert(alloc_step(states[k], sizes[k], results[k], states[k + 1]));
    }
}

/// Law: successful allocations of nonzero sizes hand out strictly decreasing
/// addresses whose reserved ranges are pairwise disjoint: every later range
/// ends at or below every earlier address.
pub proof fn lemma_chain_addresses_disjoint(
    states: Seq<BumpBlock>,
    sizes: Seq<usize>,
    addrs: Seq<usize>,
)
    requires
        states.len() == sizes.len() + 1,
        addrs.len() == sizes.len(),
        forall|i: int| 0 <= i < sizes.len() ==> #[trigger] sizes[i] > 0,
        forall|i: int|
            0 <= i < sizes.len() ==> alloc_success(states[i], sizes[i], #[trigger] addrs[i], states[i + 1]),
    ensures
        forall|i: int, j: int|
            #![trigger addrs[i], addrs[j]]
            0 <= i < j < addrs.len() ==> addrs[j] + sizes[j] <= addrs[i] && addrs[j] < addrs[i],
{
    let results = Seq::new(sizes.len(), |i: int| Some(addrs[i]));
    assert forall|i: int|
        0 <= i < sizes.len() implies alloc_step(states[i], sizes[i], #[trigger] results[i], states[i + 1]) by {
        assert(alloc_success(states[i], sizes[i], addrs[i], states[i + 1]));
    }
    assert forall|i: int, j: int|
        #![trigger addrs[i], addrs[j]]
        0 <= i < j < addrs.len() implies addrs[j] + sizes[j] <= addrs[i] && addrs[j]
        < addrs[i] by {
        lemma_chain_monotone(states, sizes, results, i + 1, j);
        assert(alloc_success(states[j], sizes[j], addrs[j], states[j + 1]));
        assert(alloc_success(states[i], sizes[i], addrs[i], states[i + 1]));
    }
}

} // verus!
