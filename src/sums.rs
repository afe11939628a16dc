//! What the slots of a tree stand for: the aggregate read along a descending
//! chain, the point values behind it, and what adding along an ascending
//! chain does to both.
use vstd::prelude::*;

use crate::index::{
    lemma_covers_iff_on_chain, lemma_lsb_bounds, lsb, on_ascending_chain, start,
    LeastSignificantBitAscendingChain, TreeIndex,
};
use crate::value::{lemma_minus_facts, FenwickTreeValue};

verus! {

/// The merge of `vals[lo]`, ..., `vals[hi - 1]`, from left to right.
pub open spec fn sum_range<T: FenwickTreeValue>(vals: Seq<T>, lo: int, hi: int) -> T
    decreases hi - lo,
{
    if hi <= lo {
        T::zero()
    } else {
        T::plus(sum_range(vals, lo, hi - 1), vals[hi - 1])
    }
}

/// The merge of the first `n` values.
pub open spec fn prefix_sum<T: FenwickTreeValue>(vals: Seq<T>, n: int) -> T {
    sum_range(vals, 0, n)
}

/// The merge of the slots met on the descending chain from internal index
/// `i`: what a query through `i` reads.
pub open spec fn chain_sum<T: FenwickTreeValue>(slots: Seq<T>, i: nat) -> T
    decreases i,
{
    if i == 0 {
        T::zero()
    } else {
        proof {
            lemma_lsb_bounds(i);
        }
        T::plus(slots[i as int], chain_sum(slots, start(i)))
    }
}

/// The point values that the slots stand for, one per external index: the
/// step between two consecutive prefix aggregates. Slot 0 is not read.
pub open spec fn point_values<T: FenwickTreeValue>(slots: Seq<T>) -> Seq<T> {
    Seq::new(
        (if slots.len() == 0 { 0 } else { slots.len() - 1 }) as nat,
        |e: int| T::minus(chain_sum(slots, (e + 1) as nat), chain_sum(slots, e as nat)),
    )
}

/// Merges `v` into every slot on the ascending chain from `k` that is at
/// most `bound`.
pub open spec fn add_on_chain<T: FenwickTreeValue>(s: Seq<T>, k: nat, bound: nat, v: T) -> Seq<T>
    decreases (if k <= bound + 1 { bound + 1 - k } else { 0 }),
{
    if k == 0 || k > bound {
        s
    } else {
        proof {
            lemma_lsb_bounds(k);
        }
        add_on_chain(s.update(k as int, T::plus(s[k as int], v)), k + lsb(k), bound, v)
    }
}

/// `n` slots that all hold the identity.
pub open spec fn identity_slots<T: FenwickTreeValue>(n: nat) -> Seq<T> {
    Seq::new(n, |j: int| T::zero())
}

/// A query reads only the slots at or below where it starts.
pub proof fn lemma_chain_sum_reads_below<T: FenwickTreeValue>(s1: Seq<T>, s2: Seq<T>, i: nat)
    requires
        i < s1.len(),
        i < s2.len(),
        forall|j: int| 0 < j <= i ==> s1[j] == s2[j],
    ensures
        chain_sum(s1, i) == chain_sum(s2, i),
    decreases i,
{
    if i > 0 {
        lemma_lsb_bounds(i);
        lemma_chain_sum_reads_below(s1, s2, start(i));
    }
}

/// The merge of the first `n` point values is the chain sum through `n`.
pub proof fn lemma_prefix_of_point_values<T: FenwickTreeValue>(slots: Seq<T>, n: nat)
    requires
        n < slots.len(),
    ensures
        prefix_sum(point_values(slots), n as int) == chain_sum(slots, n),
    decreases n,
{
    if n > 0 {
        lemma_prefix_of_point_values(slots, (n - 1) as nat);
        let a = chain_sum(slots, n);
        let b = chain_sum(slots, (n - 1) as nat);
        let pv = point_values(slots);
        assert(pv[n - 1] == T::minus(a, b));
        assert(sum_range(pv, 0, n as int) == T::plus(sum_range(pv, 0, n - 1), pv[n - 1]));
        T::lemma_group_laws(b, T::minus(a, b), T::zero());
        T::lemma_group_laws(a, b, T::zero());
    }
}

/// Slot `j` after adding along the chain from `k`: it gained `v` exactly when
/// it lies on that chain.
pub proof fn lemma_add_on_chain_at<T: FenwickTreeValue>(s: Seq<T>, k: nat, bound: nat, v: T, j: int)
    requires
        k > 0,
        bound < s.len(),
        0 <= j < s.len(),
    ensures
        add_on_chain(s, k, bound, v).len() == s.len(),
        add_on_chain(s, k, bound, v)[j] == if j <= bound && on_ascending_chain(k, j as nat) {
            T::plus(s[j], v)
        } else {
            s[j]
        },
    decreases (if k <= bound + 1 { bound + 1 - k } else { 0 }),
{
    lemma_lsb_bounds(k);
    if k <= bound {
        let s1 = s.update(k as int, T::plus(s[k as int], v));
        lemma_add_on_chain_at(s1, k + lsb(k), bound, v, j);
        if j > k {
            assert(on_ascending_chain(k, j as nat) == on_ascending_chain(k + lsb(k), j as nat));
        }
    } else {
        if j <= bound && on_ascending_chain(k, j as nat) {
            assert(j as nat >= k);
        }
    }
}

/// Adding `v` along the chain from `p` adds `v` to every chain sum through
/// `p` or above, and leaves the ones below unchanged.
pub proof fn lemma_chain_sum_after_add<T: FenwickTreeValue>(s: Seq<T>, p: nat, n: nat, v: T, t: nat)
    requires
        s.len() == n + 1,
        1 <= p <= n,
        t <= n,
    ensures
        chain_sum(add_on_chain(s, p, n, v), t) == if t >= p {
            T::plus(chain_sum(s, t), v)
        } else {
            chain_sum(s, t)
        },
    decreases t,
{
    let s2 = add_on_chain(s, p, n, v);
    if t > 0 {
        lemma_lsb_bounds(t);
        let st = start(t);
        lemma_chain_sum_after_add(s, p, n, v, st);
        lemma_add_on_chain_at(s, p, n, v, t as int);
        lemma_covers_iff_on_chain(p, t);
        let a = s[t as int];
        let b = chain_sum(s, st);
        T::lemma_group_laws(a, v, b);
        T::lemma_group_laws(v, b, T::zero());
        T::lemma_group_laws(a, b, v);
    }
}

/// Adding `v` along the chain from internal `p` adds `v` to the point value at
/// external `p - 1` and to no other.
pub proof fn lemma_point_values_after_add<T: FenwickTreeValue>(s: Seq<T>, p: nat, n: nat, v: T)
    requires
        s.len() == n + 1,
        1 <= p <= n,
    ensures
        add_on_chain(s, p, n, v).len() == s.len(),
        point_values(add_on_chain(s, p, n, v)) == point_values(s).update(
            p - 1,
            T::plus(point_values(s)[p - 1], v),
        ),
{
    let s2 = add_on_chain(s, p, n, v);
    lemma_add_on_chain_at(s, p, n, v, 0);
    let pv = point_values(s);
    let pv2 = point_values(s2);
    let want = pv.update(p - 1, T::plus(pv[p - 1], v));
    assert forall|e: int| 0 <= e < n implies pv2[e] == want[e] by {
        lemma_chain_sum_after_add(s, p, n, v, (e + 1) as nat);
        lemma_chain_sum_after_add(s, p, n, v, e as nat);
        let a = chain_sum(s, (e + 1) as nat);
        let b = chain_sum(s, e as nat);
        lemma_minus_facts(a, b, v);
    }
    assert(pv2 =~= want);
}

/// Slots that all hold the identity stand for values that are all the
/// identity.
pub proof fn lemma_identity_slots<T: FenwickTreeValue>(n: nat)
    ensures
        point_values(identity_slots::<T>(n + 1)) == identity_slots::<T>(n),
{
    let s = identity_slots::<T>(n + 1);
    assert forall|t: nat| t <= n implies chain_sum(s, t) == T::zero() by {
        lemma_chain_sum_of_identity_slots::<T>(n, t);
    }
    assert forall|e: int| 0 <= e < n implies point_values(s)[e] == T::zero() by {
        lemma_minus_facts(T::zero(), T::zero(), T::zero());
    }
    assert(point_values(s) =~= identity_slots::<T>(n));
}

proof fn lemma_chain_sum_of_identity_slots<T: FenwickTreeValue>(n: nat, t: nat)
    requires
        t <= n,
    ensures
        chain_sum(identity_slots::<T>(n + 1), t) == T::zero(),
    decreases t,
{
    if t > 0 {
        lemma_lsb_bounds(t);
        lemma_chain_sum_of_identity_slots::<T>(n, start(t));
        T::lemma_group_laws(T::zero(), T::zero(), T::zero());
    }
}

/// Merging `v` into the value at `j` adds `v` to every prefix that holds `j`.
pub proof fn lemma_prefix_after_update<T: FenwickTreeValue>(vals: Seq<T>, j: int, v: T, n: int)
    requires
        0 <= j < vals.len(),
        0 <= n <= vals.len(),
    ensures
        prefix_sum(vals.update(j, T::plus(vals[j], v)), n) == if j < n {
            T::plus(prefix_sum(vals, n), v)
        } else {
            prefix_sum(vals, n)
        },
    decreases n,
{
    let w = vals.update(j, T::plus(vals[j], v));
    if n > 0 {
        lemma_prefix_after_update(vals, j, v, n - 1);
        let p = prefix_sum(vals, n - 1);
        if n - 1 == j {
            T::lemma_group_laws(p, vals[j], v);
        } else if j < n - 1 {
            T::lemma_group_laws(p, v, vals[n - 1]);
            T::lemma_group_laws(v, vals[n - 1], T::zero());
            T::lemma_group_laws(p, vals[n - 1], v);
        }
    }
}

/// Identities appended after the values leave every prefix as it was.
pub proof fn lemma_prefix_of_padded<T: FenwickTreeValue>(vals: Seq<T>, k: nat, n: int)
    requires
        0 <= n <= vals.len() + k,
    ensures
        prefix_sum(vals + identity_slots::<T>(k), n) == prefix_sum(
            vals,
            if n <= vals.len() {
                n
            } else {
                vals.len() as int
            },
        ),
    decreases n,
{
    let w = vals + identity_slots::<T>(k);
    if n > 0 {
        lemma_prefix_of_padded(vals, k, n - 1);
        if n > vals.len() {
            T::lemma_group_laws(prefix_sum(w, n - 1), T::zero(), T::zero());
        } else {
            assert(w[n - 1] == vals[n - 1]);
        }
    }
}

/// The merge of the slots on the descending chain from internal index `i`.
pub fn read_prefix<T: FenwickTreeValue>(data: &Vec<T>, i: usize) -> (r: T)
    requires
        i < data@.len(),
    ensures
        r == chain_sum(data@, i as nat),
{
    let ghost target = i as nat;
    let mut res = T::identity();
    let mut chain = TreeIndex::Internal { val: i }.lsb_descending();
    proof {
        T::lemma_group_laws(chain_sum(data@, target), T::zero(), T::zero());
    }
    loop
        invariant
            chain.pos() <= target,
            target < data@.len(),
            target <= usize::MAX,
            chain_sum(data@, target) == T::plus(res, chain_sum(data@, chain.pos())),
        ensures
            res == chain_sum(data@, target),
        decreases chain.pos(),
    {
        let ghost before = chain.pos();
        match chain.next() {
            Some(pos) => {
                proof {
                    lemma_lsb_bounds(before);
                    T::lemma_group_laws(res, data@[before as int], chain_sum(data@, chain.pos()));
                }
                res.store_value(&data[pos.val()]);
            },
            None => {
                proof {
                    T::lemma_group_laws(res, T::zero(), T::zero());
                }
                break ;
            },
        }
    }
    res
}

/// Merges `value` into every slot that `chain` still has to hand out.
pub fn add_along<T: FenwickTreeValue>(
    data: &mut Vec<T>,
    chain: LeastSignificantBitAscendingChain,
    value: &T,
)
    requires
        chain.max() + 1 == old(data)@.len(),
        chain.max() < usize::MAX,
        0 < chain.pos() <= chain.max() + 1,
    ensures
        final(data)@ == add_on_chain(old(data)@, chain.pos(), chain.max(), *value),
{
    let mut chain = chain;
    let ghost n = chain.max();
    let ghost target = add_on_chain(data@, chain.pos(), n, *value);
    loop
        invariant
            data@.len() == n + 1,
            chain.max() == n,
            n < usize::MAX,
            0 < chain.pos() <= n + 1,
            add_on_chain(data@, chain.pos(), n, *value) == target,
        ensures
            data@ == target,
        decreases n + 1 - chain.pos(),
    {
        let ghost before = chain.pos();
        match chain.next() {
            Some(pos) => {
                proof {
                    lemma_lsb_bounds(before);
                }
                let ghost d0 = data@;
                data[pos.val()].store_value(value);
                proof {
                    assert(add_on_chain(d0, before, n, *value) == add_on_chain(
                        data@,
                        before + lsb(before),
                        n,
                        *value,
                    ));
                }
            },
            None => {
                break ;
            },
        }
    }
}

} // verus!
