//! Internal (1-based) and external (0-based) tree indexes, the lowest set bit,
//! and the chains of indexes that updates and queries walk.
use vstd::prelude::*;

use crate::TreeError;

verus! {

/// The lowest set bit of `i` as a number (`0` for `0`).
pub open spec fn lsb(i: nat) -> nat
    decreases i,
{
    if i == 0 {
        0
    } else if i % 2 == 1 {
        1
    } else {
        2 * lsb(i / 2)
    }
}

/// The first internal index below the range that slot `j` aggregates: slot
/// `j` holds the values at internal indexes `start(j) + 1 ..= j`.
pub open spec fn start(j: nat) -> nat {
    (j - lsb(j)) as nat
}

/// `j` is reached from `p` by repeatedly adding the lowest set bit.
pub open spec fn on_ascending_chain(p: nat, j: nat) -> bool
    decreases if j >= p { j - p } else { 0 },
{
    if p == 0 || j < p {
        false
    } else if j == p {
        true
    } else {
        proof {
            lemma_lsb_bounds(p);
        }
        on_ascending_chain(p + lsb(p), j)
    }
}

pub proof fn lemma_lsb_bounds(i: nat)
    requires
        i > 0,
    ensures
        0 < lsb(i) <= i,
    decreases i,
{
    if i % 2 == 0 {
        lemma_lsb_bounds(i / 2);
    }
}

/// Adding the lowest set bit at least doubles it.
proof fn lemma_lsb_step_grows(k: nat)
    requires
        k > 0,
    ensures
        lsb(k + lsb(k)) >= 2 * lsb(k),
    decreases k,
{
    if k % 2 == 1 {
        assert((k + 1) % 2 == 0);
        assert(((k + 1) / 2) > 0);
        lemma_lsb_bounds(((k + 1) / 2) as nat);
    } else {
        let m = k / 2;
        lemma_lsb_bounds(m);
        lemma_lsb_step_grows(m);
        assert(k + lsb(k) == 2 * (m + lsb(m)));
        assert((k + lsb(k)) / 2 == m + lsb(m));
    }
}

/// Between `k` and `k + lsb(k)` the lowest set bit is that of the offset.
proof fn lemma_lsb_in_gap(k: nat, d: nat)
    requires
        k > 0,
        0 < d < lsb(k),
    ensures
        lsb(k + d) == lsb(d),
    decreases k,
{
    if k % 2 == 0 {
        let m = k / 2;
        if d % 2 == 1 {
            assert((k + d) % 2 == 1);
        } else {
            let e = d / 2;
            lemma_lsb_step_grows(m);
            assert(0 < e < lsb(m));
            lemma_lsb_in_gap(m, e);
            assert((k + d) / 2 == m + e);
        }
    }
}

/// A step up the ascending chain never raises the start of the range.
pub proof fn lemma_step_keeps_start_below(k: nat)
    requires
        k > 0,
    ensures
        k < k + lsb(k),
        start(k + lsb(k)) <= start(k),
{
    lemma_lsb_bounds(k);
    lemma_lsb_step_grows(k);
    lemma_lsb_bounds(k + lsb(k));
}

/// Every node on the ascending chain of `p` starts at or below the start of
/// `p`, so it covers internal index `p`.
proof fn lemma_chain_covers(p: nat, j: nat)
    requires
        on_ascending_chain(p, j),
    ensures
        start(j) <= start(p),
        start(p) < p <= j,
    decreases j - p,
{
    assert(p > 0);
    lemma_lsb_bounds(p);
    if j != p {
        assert(on_ascending_chain(p + lsb(p), j));
        lemma_lsb_step_grows(p);
        lemma_lsb_bounds(p + lsb(p));
        lemma_chain_covers(p + lsb(p), j);
    }
}

/// Slot `j` covers internal index `p` exactly when `j` lies on the ascending
/// chain of `p`.
pub proof fn lemma_covers_iff_on_chain(p: nat, j: nat)
    requires
        p > 0,
    ensures
        on_ascending_chain(p, j) <==> (start(j) < p <= j),
    decreases j - p,
{
    if on_ascending_chain(p, j) {
        lemma_chain_covers(p, j);
    }
    if j > 0 && start(j) < p <= j && j != p {
        lemma_lsb_bounds(p);
        lemma_lsb_bounds(j);
        if j < p + lsb(p) {
            lemma_lsb_in_gap(p, (j - p) as nat);
            lemma_lsb_bounds((j - p) as nat);
            assert(false);
        }
        lemma_covers_iff_on_chain(p + lsb(p), j);
    }
}

proof fn lemma_lsb_bits(x: usize)
    requires
        x > 0,
    ensures
        x & !((x - 1) as usize) == lsb(x as nat),
    decreases x,
{
    if x % 2 == 1 {
        assert(x % 2 == 1 ==> x & !((x - 1) as usize) == 1) by (bit_vector);
    } else {
        let h: usize = x / 2;
        assert(x % 2 == 0 && x != 0 ==> x & !((x - 1) as usize) == 2 * ((x / 2) & !(((x / 2) - 1) as usize))) by (bit_vector);
        lemma_lsb_bits(h);
    }
}

/// The lowest set bit of `idx`: `idx & -idx` in two's complement, where
/// `-idx` is `!(idx - 1)`.
pub fn least_significant_bit(idx: usize) -> (r: usize)
    requires
        idx > 0,
    ensures
        r == lsb(idx as nat),
{
    proof {
        lemma_lsb_bits(idx);
    }
    idx & !(idx - 1)
}

/// `i` has exactly one set bit.
pub open spec fn is_power_of_two(i: nat) -> bool {
    i > 0 && lsb(i) == i
}

/// A position in the tree, numbered from 1 (`Internal`, the slot in the
/// backing array) or from 0 (`External`, as callers see it).
#[derive(Debug, Clone, Copy, PartialEq, Eq, Structural)]
pub enum TreeIndex {
    Internal { val: usize },
    External { val: usize },
}

impl TreeIndex {
    /// The number held, in whichever numbering the index uses.
    pub open spec fn spec_val(self) -> nat {
        match self {
            TreeIndex::Internal { val } => val as nat,
            TreeIndex::External { val } => val as nat,
        }
    }

    /// The internal number of the position: one more than the external one.
    pub open spec fn internal_val(self) -> nat {
        match self {
            TreeIndex::Internal { val } => val as nat,
            TreeIndex::External { val } => val as nat + 1,
        }
    }

    /// The number held.
    pub fn val(self) -> (r: usize)
        ensures
            r == self.spec_val(),
    {
        match self {
            TreeIndex::Internal { val } => val,
            TreeIndex::External { val } => val,
        }
    }

    /// The same position in internal numbering.
    pub fn to_internal(self) -> (r: TreeIndex)
        requires
            self.internal_val() <= usize::MAX,
        ensures
            r == (TreeIndex::Internal { val: self.internal_val() as usize }),
    {
        match self {
            TreeIndex::Internal { val: _ } => self,
            TreeIndex::External { val } => TreeIndex::Internal { val: val + 1 },
        }
    }

    /// The same position in external numbering; internal `0` has none.
    pub fn to_external(self) -> (r: Result<TreeIndex, TreeError>)
        ensures
            self.internal_val() == 0 ==> r == Err::<TreeIndex, TreeError>(
                TreeError::IndexOutOfBounds(0),
            ),
            self.internal_val() > 0 ==> r == Ok::<TreeIndex, TreeError>(
                TreeIndex::External { val: (self.internal_val() - 1) as usize },
            ),
    {
        match self {
            TreeIndex::Internal { val } => {
                if val == 0 {
                    return Err(TreeError::IndexOutOfBounds(0));
                }
                Ok(TreeIndex::External { val: val - 1 })
            },
            TreeIndex::External { val: _ } => Ok(self),
        }
    }

    /// Whether the number held has exactly one set bit.
    pub fn is_power_of_2(self) -> (r: bool)
        ensures
            r == is_power_of_two(self.spec_val()),
    {
        let i = self.val();
        if i == 0 {
            return false;
        }
        proof {
            lemma_lsb_bits(i);
            assert(i > 0 ==> (i & ((i - 1) as usize)) + (i & !((i - 1) as usize)) == i)
                by (bit_vector);
        }
        i & (i - 1) == 0
    }

    /// The chain that starts at this position (in internal numbering) and
    /// drops the lowest set bit at each step, down to 0.
    pub fn lsb_descending(self) -> (r: LeastSignificantBitDescendingChain)
        requires
            self.internal_val() <= usize::MAX,
        ensures
            r.pos() == self.internal_val(),
    {
        LeastSignificantBitDescendingChain { idx: self.to_internal() }
    }

    /// The chain that starts at this position (in internal numbering) and
    /// adds the lowest set bit at each step, while it stays at most
    /// `upper_bound`.
    pub fn lsb_ascending(self, upper_bound: usize) -> (r: LeastSignificantBitAscendingChain)
        requires
            0 < self.internal_val() <= usize::MAX,
            upper_bound < usize::MAX,
        ensures
            r.max() == upper_bound,
            0 < r.pos() <= r.max() + 1,
            r.pos() == if self.internal_val() <= upper_bound {
                self.internal_val()
            } else {
                (upper_bound + 1) as nat
            },
    {
        let idx = self.to_internal();
        let max = upper_bound;
        if idx.val() > max {
            LeastSignificantBitAscendingChain { idx: TreeIndex::Internal { val: max + 1 }, max }
        } else {
            LeastSignificantBitAscendingChain { idx, max }
        }
    }
}

/// Walks an index down to 0, dropping the lowest set bit at each step.
pub struct LeastSignificantBitDescendingChain {
    idx: TreeIndex,
}

impl LeastSignificantBitDescendingChain {
    /// The next internal index to be handed out; 0 once the chain is done.
    pub closed spec fn pos(&self) -> nat {
        self.idx.internal_val()
    }

    #[verifier::type_invariant]
    spec fn inv(self) -> bool {
        self.idx is Internal
    }

    /// Hands out the current index and moves to the one below it.
    pub fn next(&mut self) -> (r: Option<TreeIndex>)
        ensures
            old(self).pos() == 0 ==> r is None && final(self).pos() == 0,
            old(self).pos() > 0 ==> r == Some(TreeIndex::Internal { val: old(self).pos() as usize })
                && final(self).pos() == start(old(self).pos()),
    {
        proof {
            use_type_invariant(&*self);
        }
        let i = self.idx.val();
        if i == 0 {
            return None;
        }
        let res = TreeIndex::Internal { val: i };
        proof {
            lemma_lsb_bounds(i as nat);
        }
        self.idx = TreeIndex::Internal { val: i - least_significant_bit(i) };
        Some(res)
    }
}

/// Walks an index up to a bound, adding the lowest set bit at each step.
pub struct LeastSignificantBitAscendingChain {
    idx: TreeIndex,
    max: usize,
}

impl LeastSignificantBitAscendingChain {
    /// The next internal index to be handed out; `max() + 1` once the chain
    /// is done.
    pub closed spec fn pos(&self) -> nat {
        self.idx.internal_val()
    }

    /// The bound the chain stays within.
    pub closed spec fn max(&self) -> nat {
        self.max as nat
    }

    #[verifier::type_invariant]
    spec fn inv(self) -> bool {
        &&& self.idx is Internal
        &&& self.idx.internal_val() > 0
        &&& self.max < usize::MAX
        &&& self.idx.internal_val() <= self.max + 1
    }

    /// Hands out the current index and moves to the next one up; once past
    /// the bound it hands out nothing.
    pub fn next(&mut self) -> (r: Option<TreeIndex>)
        ensures
            final(self).max() == old(self).max(),
            0 < final(self).pos() <= final(self).max() + 1,
            old(self).pos() > old(self).max() ==> r is None && final(self).pos() == old(self).pos(),
            old(self).pos() <= old(self).max() ==> r == Some(TreeIndex::Internal { val: old(self).pos() as usize })
                && final(self).pos() == if old(self).pos() + lsb(old(self).pos()) <= old(self).max() {
                    old(self).pos() + lsb(old(self).pos())
                } else {
                    old(self).max() + 1
                },
    {
        proof {
            use_type_invariant(&*self);
        }
        let i = self.idx.val();
        if i > self.max {
            return None;
        }
        let res = TreeIndex::Internal { val: i };
        proof {
            lemma_lsb_bounds(i as nat);
        }
        let step = least_significant_bit(i);
        if step > self.max - i {
            self.idx = TreeIndex::Internal { val: self.max + 1 };
        } else {
            self.idx = TreeIndex::Internal { val: i + step };
        }
        Some(res)
    }
}

} // verus!
