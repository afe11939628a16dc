//! What holds of the trees over whole runs of updates, stated over the
//! models their operations are specified with.
use vstd::prelude::*;

use crate::growing_tree::{
    clamped_prefix, grown_slots, lemma_resize_keeps_old_slots, lemma_resize_pads,
    lemma_update_point_values, updated_slots,
};
use crate::sums::{
    identity_slots, lemma_identity_slots, lemma_prefix_after_update, lemma_prefix_of_padded,
    lemma_point_values_after_add, lemma_add_on_chain_at, point_values, prefix_sum,
};
use crate::value::FenwickTreeValue;
use crate::{FenwickTree, FixedSizeFenwickTree, GrowingFenwickTree, TreeError};

verus! {

/// The point values of a fixed-size tree after the updates `ops`, each an
/// index and a value, made in order from `vals`. An update at or past the
/// capacity changes nothing.
pub open spec fn fixed_after<T: FenwickTreeValue>(vals: Seq<T>, ops: Seq<(usize, T)>) -> Seq<T>
    decreases ops.len(),
{
    if ops.len() == 0 {
        vals
    } else {
        let prev = fixed_after(vals, ops.drop_last());
        let (i, v) = ops.last();
        if i < prev.len() {
            prev.update(i as int, T::plus(prev[i as int], v))
        } else {
            prev
        }
    }
}

/// The slots of a growing tree after the updates `ops`, made in order from
/// `slots`.
pub open spec fn growing_after<T: FenwickTreeValue>(slots: Seq<T>, ops: Seq<(usize, T)>) -> Seq<T>
    decreases ops.len(),
{
    if ops.len() == 0 {
        slots
    } else {
        let (i, v) = ops.last();
        updated_slots(growing_after(slots, ops.drop_last()), i as nat, v)
    }
}

/// The merge, in order, of the values of `ops` placed at index `i` or below.
pub open spec fn merged_at_or_below<T: FenwickTreeValue>(ops: Seq<(usize, T)>, i: int) -> T
    decreases ops.len(),
{
    if ops.len() == 0 {
        T::zero()
    } else {
        let (j, v) = ops.last();
        T::plus(merged_at_or_below(ops.drop_last(), i), if j <= i { v } else { T::zero() })
    }
}

proof fn lemma_prefix_of_identities<T: FenwickTreeValue>(n: nat, m: int)
    requires
        0 <= m <= n,
    ensures
        prefix_sum(identity_slots::<T>(n), m) == T::zero(),
{
    lemma_prefix_of_padded(Seq::<T>::empty(), n, m);
    assert(Seq::<T>::empty() + identity_slots::<T>(n) =~= identity_slots::<T>(n));
}

/// After any updates inside its capacity, a fixed-size tree's query at `i`
/// is the merge of the values placed at `i` or below.
pub proof fn lemma_fixed_prefix_correct<T: FenwickTreeValue>(cap: nat, ops: Seq<(usize, T)>, i: int)
    requires
        forall|k: int| 0 <= k < ops.len() ==> #[trigger] ops[k].0 < cap,
        0 <= i < cap,
    ensures
        fixed_after(identity_slots::<T>(cap), ops).len() == cap,
        prefix_sum(fixed_after(identity_slots::<T>(cap), ops), i + 1) == merged_at_or_below(ops, i),
    decreases ops.len(),
{
    let init = identity_slots::<T>(cap);
    if ops.len() == 0 {
        lemma_prefix_of_identities::<T>(cap, i + 1);
    } else {
        let rest = ops.drop_last();
        assert forall|k: int| 0 <= k < rest.len() implies #[trigger] rest[k].0 < cap by {
            assert(rest[k] == ops[k]);
        }
        lemma_fixed_prefix_correct(cap, rest, i);
        let prev = fixed_after(init, rest);
        let (j, v) = ops.last();
        assert(ops.last() == ops[ops.len() - 1]);
        lemma_prefix_after_update(prev, j as int, v, i + 1);
        if j > i {
            T::lemma_group_laws(prefix_sum(prev, i + 1), T::zero(), T::zero());
        }
    }
}

/// After any updates, resizes included, a growing tree's query at any `i`
/// is the merge of the values placed at `i` or below.
pub proof fn lemma_growing_prefix_correct<T: FenwickTreeValue>(
    cap: nat,
    ops: Seq<(usize, T)>,
    i: int,
)
    requires
        i >= 0,
    ensures
        growing_after(identity_slots::<T>(cap + 1), ops).len() >= 1,
        clamped_prefix(point_values(growing_after(identity_slots::<T>(cap + 1), ops)), i)
            == merged_at_or_below(ops, i),
        forall|k: int|
            0 <= k < ops.len() ==> #[trigger] ops[k].0 < point_values(
                growing_after(identity_slots::<T>(cap + 1), ops),
            ).len(),
    decreases ops.len(),
{
    let init = identity_slots::<T>(cap + 1);
    if ops.len() == 0 {
        lemma_identity_slots::<T>(cap);
        let pv = point_values(init);
        lemma_prefix_of_identities::<T>(cap, if i >= cap { cap as int } else { i + 1 });
    } else {
        let rest = ops.drop_last();
        let n = (ops.len() - 1) as int;
        assert(ops.take(n) == rest);
        lemma_growing_prefix_correct(cap, rest, i);
        let prev = growing_after(init, rest);
        let (j, v) = ops.last();
        assert(ops.last() == ops[n]);
        assert(growing_after(init, ops.take(n)) == prev);
        lemma_update_point_values(prev, j as nat, v);
        let pv = point_values(prev);
        let len2 = if j + 2 > prev.len() { j + 2 } else { prev.len() as int };
        let padded = if j + 2 > prev.len() {
            pv + identity_slots::<T>((j + 2 - prev.len()) as nat)
        } else {
            pv
        };
        let m = if i >= len2 - 1 { len2 - 1 } else { i + 1 };
        lemma_prefix_after_update(padded, j as int, v, m);
        if j + 2 > prev.len() {
            lemma_prefix_of_padded(pv, (j + 2 - prev.len()) as nat, m);
        }
        if !(j < m) {
            T::lemma_group_laws(prefix_sum(padded, m), T::zero(), T::zero());
        }
        let now = growing_after(init, ops);
        assert forall|k: int| 0 <= k < ops.len() implies #[trigger] ops[k].0 < point_values(now).len() by {
            if k < n {
                assert(rest[k] == ops[k]);
            }
        }
    }
}

/// A fixed-size tree and a growing tree made with the same capacity agree
/// after the same updates, as long as no update reaches the capacity.
pub proof fn lemma_fixed_growing_agree<T: FenwickTreeValue>(cap: nat, ops: Seq<(usize, T)>)
    requires
        forall|k: int| 0 <= k < ops.len() ==> #[trigger] ops[k].0 < cap,
    ensures
        growing_after(identity_slots::<T>(cap + 1), ops).len() == cap + 1,
        point_values(growing_after(identity_slots::<T>(cap + 1), ops)) == fixed_after(
            identity_slots::<T>(cap),
            ops,
        ),
    decreases ops.len(),
{
    let init = identity_slots::<T>(cap + 1);
    if ops.len() == 0 {
        lemma_identity_slots::<T>(cap);
    } else {
        let rest = ops.drop_last();
        assert forall|k: int| 0 <= k < rest.len() implies #[trigger] rest[k].0 < cap by {
            assert(rest[k] == ops[k]);
        }
        lemma_fixed_growing_agree(cap, rest);
        let prev = growing_after(init, rest);
        let (j, v) = ops.last();
        assert(ops.last() == ops[ops.len() - 1]);
        lemma_add_on_chain_at(prev, (j + 1) as nat, cap, v, 0);
        lemma_point_values_after_add(prev, (j + 1) as nat, cap, v);
    }
}

/// A query reads only the point values, and `query` takes the tree by
/// shared reference, so asking again gives the same answer.
pub proof fn lemma_fixed_query_stable<T: FenwickTreeValue>(
    a: FixedSizeFenwickTree<T>,
    b: FixedSizeFenwickTree<T>,
    idx: usize,
)
    requires
        a@ == b@,
    ensures
        a.spec_query(idx) == b.spec_query(idx),
{
}

/// Asking a growing tree the same query again gives the same answer.
pub proof fn lemma_growing_query_stable<T: FenwickTreeValue>(
    a: GrowingFenwickTree<T>,
    b: GrowingFenwickTree<T>,
    idx: usize,
)
    requires
        a@ == b@,
    ensures
        a.spec_query(idx) == b.spec_query(idx),
{
}

/// An update at `i` inside a fixed-size tree's capacity adds its value to
/// the query at `i`.
pub proof fn lemma_fixed_update_accumulates<T: FenwickTreeValue>(vals: Seq<T>, i: int, v: T)
    requires
        0 <= i < vals.len(),
    ensures
        prefix_sum(vals.update(i, T::plus(vals[i], v)), i + 1) == T::plus(prefix_sum(vals, i + 1), v),
{
    lemma_prefix_after_update(vals, i, v, i + 1);
}

/// An update at `i` of a growing tree adds its value to the query at `i`,
/// also when it grows the tree.
pub proof fn lemma_growing_update_accumulates<T: FenwickTreeValue>(slots: Seq<T>, i: nat, v: T)
    requires
        slots.len() >= 1,
    ensures
        clamped_prefix(point_values(updated_slots(slots, i, v)), i as int) == T::plus(
            clamped_prefix(point_values(slots), i as int),
            v,
        ),
{
    lemma_update_point_values(slots, i, v);
    let pv = point_values(slots);
    if i + 2 > slots.len() {
        let k = (i + 2 - slots.len()) as nat;
        let padded = pv + identity_slots::<T>(k);
        lemma_prefix_after_update(padded, i as int, v, (i + 1) as int);
        lemma_prefix_of_padded(pv, k, (i + 1) as int);
    } else {
        lemma_prefix_after_update(pv, i as int, v, (i + 1) as int);
    }
}

/// Right after a resize, the query at every index gives what it gave
/// before: at an index that was in the tree, and past it, where both read
/// the old total.
pub proof fn lemma_resize_keeps_queries<T: FenwickTreeValue>(slots: Seq<T>, new_len: nat, e: int)
    requires
        1 <= slots.len() <= new_len,
        e >= 0,
    ensures
        clamped_prefix(point_values(grown_slots(slots, new_len)), e) == clamped_prefix(
            point_values(slots),
            e,
        ),
{
    let pv = point_values(slots);
    let k = (new_len - slots.len()) as nat;
    lemma_resize_keeps_old_slots(slots, new_len);
    lemma_resize_pads(slots, new_len);
    let m = if e >= pv.len() + k { (pv.len() + k) as int } else { e + 1 };
    lemma_prefix_of_padded(pv, k, m);
}

/// A growing tree reads an index at or past its capacity as its highest
/// one.
pub proof fn lemma_growing_query_clamps<T: FenwickTreeValue>(t: GrowingFenwickTree<T>, e: usize)
    requires
        0 < t@.len() <= e,
    ensures
        t.spec_query(e) == t.spec_query((t@.len() - 1) as usize),
{
}

/// A fixed-size tree refuses a query at or past its capacity with the
/// index it was given.
pub proof fn lemma_fixed_query_rejects<T: FenwickTreeValue>(t: FixedSizeFenwickTree<T>, e: usize)
    requires
        e >= t@.len(),
    ensures
        t.spec_query(e) == Err::<T, TreeError>(TreeError::IndexOutOfBounds(e)),
{
}

} // verus!
