//! A tree that grows to hold any index it is given.
use vstd::prelude::*;

use crate::index::{
    least_significant_bit, lemma_covers_iff_on_chain, lemma_lsb_bounds, lemma_step_keeps_start_below,
    lsb, on_ascending_chain, start, TreeIndex,
};
use crate::sums::{
    add_along, add_on_chain, chain_sum, identity_slots, lemma_add_on_chain_at,
    lemma_chain_sum_reads_below, lemma_identity_slots, lemma_point_values_after_add,
    lemma_prefix_of_point_values, point_values, prefix_sum, read_prefix,
};
use crate::value::{lemma_minus_facts, FenwickTreeValue};
use crate::{FenwickTree, TreeError};

verus! {

/// Merges into each slot `j` on the ascending chain from `k` up to `bound`
/// the total of `old` through `h` with the prefix of `old` through
/// `start(j)` taken out: what slot `j` covers of the values in `old`.
pub open spec fn repair_on_chain<T: FenwickTreeValue>(
    s: Seq<T>,
    old: Seq<T>,
    h: nat,
    k: nat,
    bound: nat,
) -> Seq<T>
    decreases (if k <= bound + 1 { bound + 1 - k } else { 0 }),
{
    if k == 0 || k > bound {
        s
    } else {
        proof {
            lemma_lsb_bounds(k);
        }
        repair_on_chain(
            s.update(
                k as int,
                T::plus(s[k as int], T::minus(chain_sum(old, h), chain_sum(old, start(k)))),
            ),
            old,
            h,
            k + lsb(k),
            bound,
        )
    }
}

/// The slots after growing `s` to `new_len` slots: new slots start at the
/// identity, then every new slot on the ascending chain of the old top slot
/// `h` gets the part of the old total that its range covers.
pub open spec fn grown_slots<T: FenwickTreeValue>(s: Seq<T>, new_len: nat) -> Seq<T> {
    let padded = s + identity_slots::<T>((new_len - s.len()) as nat);
    if s.len() <= 1 {
        padded
    } else {
        let h = (s.len() - 1) as nat;
        repair_on_chain(padded, s, h, h + lsb(h), (new_len - 1) as nat)
    }
}

/// The slots after `update(idx, v)`: grown to hold `idx` if they do not yet,
/// then `v` merged along the ascending chain of `idx`.
pub open spec fn updated_slots<T: FenwickTreeValue>(s: Seq<T>, idx: nat, v: T) -> Seq<T> {
    let g = if idx + 2 > s.len() {
        grown_slots(s, idx + 2)
    } else {
        s
    };
    add_on_chain(g, idx + 1, (g.len() - 1) as nat, v)
}

/// The merge of the values up to and including `idx`, where an index at or
/// past the end is read as the last one.
pub open spec fn clamped_prefix<T: FenwickTreeValue>(vals: Seq<T>, idx: int) -> T {
    prefix_sum(vals, if idx >= vals.len() { vals.len() as int } else { idx + 1 })
}

/// Slot `j` after a repair along the chain from `k`: it gained its share of
/// the old total exactly when it lies on that chain.
pub proof fn lemma_repair_on_chain_at<T: FenwickTreeValue>(
    s: Seq<T>,
    old: Seq<T>,
    h: nat,
    k: nat,
    bound: nat,
    j: int,
)
    requires
        k > 0,
        bound < s.len(),
        0 <= j < s.len(),
    ensures
        repair_on_chain(s, old, h, k, bound).len() == s.len(),
        repair_on_chain(s, old, h, k, bound)[j] == if j <= bound && on_ascending_chain(k, j as nat) {
            T::plus(s[j], T::minus(chain_sum(old, h), chain_sum(old, start(j as nat))))
        } else {
            s[j]
        },
    decreases (if k <= bound + 1 { bound + 1 - k } else { 0 }),
{
    lemma_lsb_bounds(k);
    if k <= bound {
        let s1 = s.update(
            k as int,
            T::plus(s[k as int], T::minus(chain_sum(old, h), chain_sum(old, start(k)))),
        );
        lemma_repair_on_chain_at(s1, old, h, k + lsb(k), bound, j);
        if j > k {
            assert(on_ascending_chain(k, j as nat) == on_ascending_chain(k + lsb(k), j as nat));
        }
    } else {
        if j <= bound && on_ascending_chain(k, j as nat) {
            assert(j as nat >= k);
        }
    }
}

/// The slots at or below the old top slot come out of a resize unchanged,
/// and from at most one slot the new ones hold the identity.
pub proof fn lemma_resize_keeps_old_slots<T: FenwickTreeValue>(s: Seq<T>, new_len: nat)
    requires
        1 <= s.len() <= new_len,
    ensures
        grown_slots(s, new_len).len() == new_len,
        forall|j: int| 0 <= j < s.len() ==> #[trigger] grown_slots(s, new_len)[j] == s[j],
        forall|j: int|
            s.len() <= j < new_len && s.len() <= 1 ==> #[trigger] grown_slots(s, new_len)[j]
                == T::zero(),
{
    let padded = s + identity_slots::<T>((new_len - s.len()) as nat);
    if s.len() > 1 {
        let h = (s.len() - 1) as nat;
        lemma_lsb_bounds(h);
        assert forall|j: int| 0 <= j < s.len() implies #[trigger] grown_slots(s, new_len)[j]
            == s[j] by {
            lemma_repair_on_chain_at(padded, s, h, h + lsb(h), (new_len - 1) as nat, j);
        }
        lemma_repair_on_chain_at(padded, s, h, h + lsb(h), (new_len - 1) as nat, 0);
    }
}

/// A resize leaves the aggregate through every index that was in the tree
/// before it as it was.
pub proof fn lemma_resize_keeps_prefixes<T: FenwickTreeValue>(s: Seq<T>, new_len: nat, i: nat)
    requires
        1 <= s.len() <= new_len,
        i < s.len(),
    ensures
        chain_sum(grown_slots(s, new_len), i) == chain_sum(s, i),
        prefix_sum(point_values(grown_slots(s, new_len)), i as int) == prefix_sum(
            point_values(s),
            i as int,
        ),
{
    lemma_resize_keeps_old_slots(s, new_len);
    lemma_chain_sum_reads_below(grown_slots(s, new_len), s, i);
    lemma_prefix_of_point_values(grown_slots(s, new_len), i);
    lemma_prefix_of_point_values(s, i);
}

/// After a resize, the aggregate through any new slot is the old total.
proof fn lemma_resize_chain_sum_of_new_slot<T: FenwickTreeValue>(s: Seq<T>, new_len: nat, t: nat)
    requires
        1 <= s.len() <= new_len,
        s.len() - 1 <= t < new_len,
    ensures
        chain_sum(grown_slots(s, new_len), t) == chain_sum(s, (s.len() - 1) as nat),
    decreases t,
{
    let h = (s.len() - 1) as nat;
    let g = grown_slots(s, new_len);
    lemma_resize_keeps_old_slots(s, new_len);
    if t == h {
        lemma_resize_keeps_prefixes(s, new_len, h);
    } else {
        lemma_lsb_bounds(t);
        let st = start(t);
        if s.len() <= 1 {
            assert(g[t as int] == T::zero());
            lemma_resize_chain_sum_of_new_slot(s, new_len, st);
            T::lemma_group_laws(T::zero(), chain_sum(s, h), T::zero());
            T::lemma_group_laws(chain_sum(s, h), T::zero(), T::zero());
        } else {
            let padded = s + identity_slots::<T>((new_len - s.len()) as nat);
            lemma_lsb_bounds(h);
            lemma_repair_on_chain_at(padded, s, h, h + lsb(h), (new_len - 1) as nat, t as int);
            assert(on_ascending_chain(h, t) == on_ascending_chain(h + lsb(h), t));
            lemma_covers_iff_on_chain(h, t);
            if on_ascending_chain(h, t) {
                let share = T::minus(chain_sum(s, h), chain_sum(s, st));
                lemma_resize_keeps_prefixes(s, new_len, st);
                lemma_minus_facts(share, share, T::zero());
                T::lemma_group_laws(share, T::zero(), T::zero());
                T::lemma_group_laws(chain_sum(s, h), chain_sum(s, st), T::zero());
            } else {
                lemma_resize_chain_sum_of_new_slot(s, new_len, st);
                T::lemma_group_laws(T::zero(), chain_sum(s, h), T::zero());
                T::lemma_group_laws(chain_sum(s, h), T::zero(), T::zero());
            }
        }
    }
}

/// A resize keeps every point value and adds identities after them.
pub proof fn lemma_resize_pads<T: FenwickTreeValue>(s: Seq<T>, new_len: nat)
    requires
        1 <= s.len() <= new_len,
    ensures
        point_values(grown_slots(s, new_len)) == point_values(s) + identity_slots::<T>(
            (new_len - s.len()) as nat,
        ),
{
    let h = (s.len() - 1) as nat;
    let g = grown_slots(s, new_len);
    let want = point_values(s) + identity_slots::<T>((new_len - s.len()) as nat);
    lemma_resize_keeps_old_slots(s, new_len);
    assert forall|e: int| 0 <= e < new_len - 1 implies point_values(g)[e] == want[e] by {
        if e + 1 <= h {
            lemma_resize_keeps_prefixes(s, new_len, (e + 1) as nat);
            lemma_resize_keeps_prefixes(s, new_len, e as nat);
        } else {
            lemma_resize_chain_sum_of_new_slot(s, new_len, (e + 1) as nat);
            lemma_resize_chain_sum_of_new_slot(s, new_len, e as nat);
            lemma_minus_facts(chain_sum(s, h), chain_sum(s, h), T::zero());
        }
    }
    assert(point_values(g) =~= want);
}

/// What `update(idx, v)` does to the point values: identities appended up
/// to `idx` if the tree grows, then `v` merged in at `idx`.
pub proof fn lemma_update_point_values<T: FenwickTreeValue>(s: Seq<T>, idx: nat, v: T)
    requires
        s.len() >= 1,
    ensures
        updated_slots(s, idx, v).len() == if idx + 2 > s.len() {
            idx + 2
        } else {
            s.len()
        },
        point_values(updated_slots(s, idx, v)) == ({
            let padded = if idx + 2 > s.len() {
                point_values(s) + identity_slots::<T>((idx + 2 - s.len()) as nat)
            } else {
                point_values(s)
            };
            padded.update(idx as int, T::plus(padded[idx as int], v))
        }),
{
    let g = if idx + 2 > s.len() {
        grown_slots(s, idx + 2)
    } else {
        s
    };
    if idx + 2 > s.len() {
        lemma_resize_keeps_old_slots(s, idx + 2);
        lemma_resize_pads(s, idx + 2);
    }
    lemma_add_on_chain_at(g, idx + 1, (g.len() - 1) as nat, v, 0);
    lemma_point_values_after_add(g, idx + 1, (g.len() - 1) as nat, v);
}

/// A Fenwick tree that grows on demand.
///
/// Its view is the sequence of point values, one per index below the
/// current capacity; `slots` is the backing array the view is read from.
///
/// Growing keeps every value and adds identities after them: each new slot
/// that covers the old top slot is given the part of the old total that its
/// range holds.
pub struct GrowingFenwickTree<T: FenwickTreeValue> {
    data: Vec<T>,
}

impl<T: FenwickTreeValue> View for GrowingFenwickTree<T> {
    type V = Seq<T>;

    closed spec fn view(&self) -> Seq<T> {
        point_values(self.data@)
    }
}

impl<T: FenwickTreeValue> GrowingFenwickTree<T> {
    /// The backing array: slot `j` holds the merge of the values at internal
    /// indexes `start(j) + 1 ..= j`, slot 0 is unused.
    pub closed spec fn slots(&self) -> Seq<T> {
        self.data@
    }

    /// The view is read from the slots.
    pub proof fn lemma_view_is_point_values(&self)
        ensures
            self@ == point_values(self.slots()),
    {
    }

    /// A tree of capacity `size`, every value the identity.
    pub fn new(size: usize) -> (r: Self)
        requires
            size < usize::MAX,
        ensures
            r.well_formed(),
            r.slots() == identity_slots::<T>(size as nat + 1),
            r@ == identity_slots::<T>(size as nat),
    {
        let mut data: Vec<T> = Vec::new();
        while data.len() < size + 1
            invariant
                size < usize::MAX,
                data@ == identity_slots::<T>(data@.len()),
                data@.len() <= size + 1,
            decreases size + 1 - data@.len(),
        {
            data.push(T::identity());
            assert(data@ =~= identity_slots::<T>(data@.len()));
        }
        proof {
            lemma_identity_slots::<T>(size as nat);
        }
        Self { data }
    }

    /// The number of slots, capacity plus one.
    fn size(&self) -> (r: usize)
        ensures
            r == self.slots().len(),
    {
        self.data.len()
    }

    /// Grows the backing array to hold external index `idx`, and repairs the
    /// new slots above the old top slot.
    fn resize(&mut self, idx: usize)
        requires
            old(self).well_formed(),
            old(self).slots().len() < idx + 2 <= usize::MAX,
        ensures
            final(self).well_formed(),
            final(self).slots().len() == idx + 2,
            final(self).slots() == grown_slots(old(self).slots(), idx as nat + 2),
    {
        let ghost s0 = self.data@;
        let size_before_resize = self.size();
        while self.data.len() < idx + 2
            invariant
                idx + 2 <= usize::MAX,
                s0.len() == size_before_resize,
                size_before_resize <= self.data@.len() <= idx + 2,
                self.data@ == s0 + identity_slots::<T>((self.data@.len() - s0.len()) as nat),
            decreases idx + 2 - self.data@.len(),
        {
            self.data.push(T::identity());
            assert(self.data@ =~= s0 + identity_slots::<T>((self.data@.len() - s0.len()) as nat));
        }
        if size_before_resize <= 1 {
            return;
        }
        let ghost padded = self.data@;
        let ghost target = grown_slots(s0, idx as nat + 2);
        let highest_index_before_resize = TreeIndex::Internal { val: size_before_resize - 1 };
        let h = size_before_resize - 1;
        let n = self.data.len() - 1;
        let mut chain = highest_index_before_resize.lsb_ascending(n);
        // The old top slot is already right: start above it.
        chain.next();
        proof {
            lemma_lsb_bounds(h as nat);
            lemma_step_keeps_start_below(h as nat);
            if h + lsb(h as nat) > n {
                assert(repair_on_chain(padded, s0, h as nat, h as nat + lsb(h as nat), n as nat) == padded);
                assert(repair_on_chain(padded, s0, h as nat, chain.pos(), n as nat) == padded);
            }
        }
        loop
            invariant
                s0.len() == h + 1,
                0 < h <= n,
                n < usize::MAX,
                self.data@.len() == n + 1,
                chain.max() == n,
                h < chain.pos() <= n + 1,
                chain.pos() <= n ==> start(chain.pos()) < h,
                forall|j: int| 0 <= j <= h ==> self.data@[j] == s0[j],
                repair_on_chain(self.data@, s0, h as nat, chain.pos(), n as nat) == target,
            ensures
                self.data@ == target,
            decreases n + 1 - chain.pos(),
        {
            let ghost before = chain.pos();
            match chain.next() {
                Some(pos) => {
                    let k = pos.val();
                    proof {
                        lemma_lsb_bounds(before);
                        lemma_step_keeps_start_below(before);
                    }
                    let below = k - least_significant_bit(k);
                    proof {
                        lemma_chain_sum_reads_below(self.data@, s0, h as nat);
                        lemma_chain_sum_reads_below(self.data@, s0, below as nat);
                    }
                    // What slot `k` covers of the old values: the total with
                    // the prefix below its range taken out.
                    let total = read_prefix(&self.data, h);
                    let covered = total.substract(read_prefix(&self.data, below));
                    let ghost d0 = self.data@;
                    self.data[k].store_value(&covered);
                    proof {
                        assert(repair_on_chain(d0, s0, h as nat, before, n as nat) == repair_on_chain(
                            self.data@,
                            s0,
                            h as nat,
                            before + lsb(before),
                            n as nat,
                        ));
                    }
                },
                None => {
                    break ;
                },
            }
        }
    }
}

impl<T: FenwickTreeValue> FenwickTree for GrowingFenwickTree<T> {
    type Value = T;

    closed spec fn well_formed(&self) -> bool {
        self.data@.len() >= 1
    }

    /// An index at or above the capacity is read as the highest one.
    open spec fn spec_query(&self, idx: usize) -> Result<T, TreeError> {
        Ok(clamped_prefix(self@, idx as int))
    }

    /// The tree can grow to hold `idx` within `usize`.
    open spec fn update_fits(&self, idx: usize) -> bool {
        idx + 2 <= usize::MAX
    }

    fn query(&self, idx: usize) -> (r: Result<T, TreeError>) {
        let n = self.size() - 1;
        let i = if idx >= n {
            n
        } else {
            idx + 1
        };
        let res = read_prefix(&self.data, i);
        proof {
            lemma_prefix_of_point_values(self.data@, i as nat);
        }
        Ok(res)
    }

    /// Never fails: grows first when `idx` is at or above the capacity.
    fn update(&mut self, idx: usize, value: T) -> (r: Result<(), TreeError>)
        ensures
            r is Ok,
            final(self).slots() == updated_slots(old(self).slots(), idx as nat, value),
            final(self)@.len() == if idx < old(self)@.len() {
                old(self)@.len()
            } else {
                idx as nat + 1
            },
            idx < old(self)@.len() ==> final(self)@ == old(self)@.update(
                idx as int,
                T::plus(old(self)@[idx as int], value),
            ),
            idx >= old(self)@.len() ==> final(self)@ == (old(self)@ + identity_slots::<T>(
                (idx + 1 - old(self)@.len()) as nat,
            )).update(idx as int, T::plus(T::zero(), value)),
    {
        if idx + 1 > self.size() - 1 {
            self.resize(idx);
        }
        let ghost g = self.data@;
        let n = self.size() - 1;
        proof {
            lemma_add_on_chain_at(g, (idx + 1) as nat, n as nat, value, 0);
            if idx + 2 <= old(self).slots().len() {
                lemma_point_values_after_add(g, (idx + 1) as nat, n as nat, value);
            }
        }
        add_along(&mut self.data, TreeIndex::External { val: idx }.lsb_ascending(n), &value);
        proof {
            if idx + 2 > old(self).slots().len() {
                lemma_update_point_values(old(self).slots(), idx as nat, value);
            }
        }
        Ok(())
    }
}

} // verus!
