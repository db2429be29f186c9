//! Per-block occupancy map at line granularity: written by the external
//! collector between allocation phases, read by the recycle transition to
//! find how far down a reused block may bump.

use vstd::prelude::*;
use crate::LINE_COUNT;

verus! {

/// Per-line occupancy marks for one block: `true` means the line still holds
/// live data and must not be overwritten.
pub struct BlockMeta {
    lines: Vec<bool>,
}

impl View for BlockMeta {
    type V = Seq<bool>;

    closed spec fn view(&self) -> Seq<bool> {
        self.lines@
    }
}

/// One past the last marked line of `s`: the first index at and after which
/// every line is unmarked, `0` when nothing is marked.
pub open spec fn mark_frontier(s: Seq<bool>) -> int
    decreases s.len(),
{
    if s.len() == 0 {
        0
    } else if s.last() {
        s.len() as int
    } else {
        mark_frontier(s.drop_last())
    }
}

/// The frontier is within bounds, every line at or after it is unmarked, and
/// it sits right after a marked line unless it is `0`.
pub proof fn lemma_mark_frontier(s: Seq<bool>)
    ensures
        0 <= mark_frontier(s) <= s.len(),
        forall|i: int| mark_frontier(s) <= i < s.len() ==> !s[i],
        mark_frontier(s) > 0 ==> s[mark_frontier(s) - 1],
    decreases s.len(),
{
    if s.len() == 0 {
    } else if s.last() {
    } else {
        lemma_mark_frontier(s.drop_last());
        assert forall|i: int| mark_frontier(s) <= i < s.len() implies !s[i] by {
            if i < s.len() - 1 {
                assert(s.drop_last()[i] == s[i]);
            }
        }
        if mark_frontier(s) > 0 {
            assert(s.drop_last()[mark_frontier(s) - 1] == s[mark_frontier(s) - 1]);
        }
    }
}

/// If every line at and after `k` is unmarked, the frontier is at most `k`.
proof fn lemma_mark_frontier_le(s: Seq<bool>, k: int)
    requires
        0 <= k <= s.len(),
        forall|i: int| k <= i < s.len() ==> !s[i],
    ensures
        mark_frontier(s) <= k,
    decreases s.len(),
{
    if s.len() == 0 {
    } else if s.last() {
        if k < s.len() {
            assert(!s[s.len() - 1]);
        }
    } else {
        if k == s.len() {
            lemma_mark_frontier(s);
        } else {
            assert forall|i: int| k <= i < s.drop_last().len() implies !s.drop_last()[i] by {
                assert(s.drop_last()[i] == s[i]);
            }
            lemma_mark_frontier_le(s.drop_last(), k);
        }
    }
}

impl BlockMeta {
    /// Every line of a block is tracked.
    pub open spec fn wf(&self) -> bool {
        self@.len() == LINE_COUNT
    }

    /// A fresh map with every line unmarked.
    pub fn new() -> (r: BlockMeta)
        ensures
            r.wf(),
            forall|i: int| 0 <= i < LINE_COUNT ==> !r@[i],
    {
        let mut lines: Vec<bool> = Vec::new();
        while lines.len() < LINE_COUNT
            invariant
                lines@.len() <= LINE_COUNT,
                forall|i: int| 0 <= i < lines@.len() ==> !lines@[i],
            decreases LINE_COUNT - lines@.len(),
        {
            lines.push(false);
        }
        BlockMeta { lines }
    }

    /// Whether line `index` still holds live data.
    pub fn is_marked(&self, index: usize) -> (r: bool)
        requires
            self.wf(),
            index < LINE_COUNT,
        ensures
            r == self@[index as int],
    {
        self.lines[index]
    }

    /// Records whether line `index` holds live data; other lines keep their
    /// marks.
    pub fn set_line(&mut self, index: usize, marked: bool)
        requires
            old(self).wf(),
            index < LINE_COUNT,
        ensures
            final(self).wf(),
            final(self)@ == old(self)@.update(index as int, marked),
    {
        self.lines[index] = marked;
    }

    /// First line index at or after `from` from which every later line is
    /// unmarked: the lowest boundary a recycled block may bump down to
    /// without touching live data.
    pub fn find_limit(&self, from: usize) -> (r: usize)
        requires
            self.wf(),
            from <= LINE_COUNT,
        ensures
            from <= r <= LINE_COUNT,
            r as int == if mark_frontier(self@) > from as int {
                mark_frontier(self@)
            } else {
                from as int
            },
            forall|i: int| r <= i < LINE_COUNT ==> !self@[i],
    {
        let mut r: usize = self.lines.len();
        while r > from && !self.lines[r - 1]
            invariant
                self.wf(),
                from <= r <= LINE_COUNT,
                forall|i: int| r <= i < LINE_COUNT ==> !self@[i],
            decreases r,
        {
            r = r - 1;
        }
        proof {
            lemma_mark_frontier(self@);
            lemma_mark_frontier_le(self@, r as int);
            if r > from {
                assert(self@[r - 1]);
                if mark_frontier(self@) < r as int {
                    assert(!self@[r - 1]);
                }
            }
        }
        r
    }
}

} // verus!
