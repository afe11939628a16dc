//! A tree whose capacity is set when it is made.
use vstd::prelude::*;

use crate::index::TreeIndex;
use crate::sums::{
    add_along, identity_slots, lemma_identity_slots, lemma_point_values_after_add,
    lemma_prefix_of_point_values, point_values, prefix_sum, read_prefix,
};
use crate::value::FenwickTreeValue;
use crate::{FenwickTree, TreeError};

verus! {

/// A Fenwick tree over the external indexes `0 .. capacity`.
///
/// Its view is the sequence of point values, one per index.
pub struct FixedSizeFenwickTree<T: FenwickTreeValue> {
    data: Vec<T>,
}

impl<T: FenwickTreeValue> View for FixedSizeFenwickTree<T> {
    type V = Seq<T>;

    closed spec fn view(&self) -> Seq<T> {
        point_values(self.data@)
    }
}

impl<T: FenwickTreeValue> FixedSizeFenwickTree<T> {
    /// A tree of capacity `size`, every value the identity.
    pub fn new(size: usize) -> (r: Self)
        requires
            size < usize::MAX,
        ensures
            r.well_formed(),
            r@ == identity_slots::<T>(size as nat),
    {
        let mut data: Vec<T> = Vec::new();
        while data.len() < size + 1
            invariant
                size < usize::MAX,
                data@ == identity_slots::<T>(data@.len()),
                data@.len() <= size + 1,
            decreases size + 1 - data@.len(),
        {
            data.push(T::identity());
            assert(data@ =~= identity_slots::<T>(data@.len()));
        }
        proof {
            lemma_identity_slots::<T>(size as nat);
        }
        Self { data }
    }

    /// The capacity.
    fn size(&self) -> (r: usize)
        requires
            self.well_formed(),
        ensures
            r == self@.len(),
            r < usize::MAX,
    {
        self.data.len() - 1
    }
}

impl<T: FenwickTreeValue> FenwickTree for FixedSizeFenwickTree<T> {
    type Value = T;

    closed spec fn well_formed(&self) -> bool {
        self.data@.len() >= 1
    }

    open spec fn spec_query(&self, idx: usize) -> Result<T, TreeError> {
        if idx >= self@.len() {
            Err(TreeError::IndexOutOfBounds(idx))
        } else {
            Ok(prefix_sum(self@, idx + 1))
        }
    }

    open spec fn update_fits(&self, idx: usize) -> bool {
        true
    }

    fn query(&self, idx: usize) -> (r: Result<T, TreeError>) {
        if idx >= self.size() {
            return Err(TreeError::IndexOutOfBounds(idx));
        }
        let ghost target = (idx + 1) as nat;
        let res = read_prefix(&self.data, idx + 1);
        proof {
            lemma_prefix_of_point_values(self.data@, target);
        }
        Ok(res)
    }

    /// Fails with `IndexOutOfBounds(idx)` when `idx` is above the capacity.
    /// An update at the capacity itself is accepted and changes nothing.
    fn update(&mut self, idx: usize, value: T) -> (r: Result<(), TreeError>)
        ensures
            idx > old(self)@.len() ==> r == Err::<(), TreeError>(TreeError::IndexOutOfBounds(idx)),
            idx <= old(self)@.len() ==> r is Ok,
            idx < old(self)@.len() ==> final(self)@ == old(self)@.update(
                idx as int,
                T::plus(old(self)@[idx as int], value),
            ),
            idx >= old(self)@.len() ==> final(self)@ == old(self)@,
    {
        let n = self.size();
        if idx > n {
            return Err(TreeError::IndexOutOfBounds(idx));
        }
        let ghost start_slots = self.data@;
        add_along(&mut self.data, TreeIndex::External { val: idx }.lsb_ascending(n), &value);
        proof {
            if idx < n {
                lemma_point_values_after_add(start_slots, (idx + 1) as nat, n as nat, value);
            }
        }
        Ok(())
    }
}

} // verus!
