//! A Fenwick tree (binary indexed tree) that keeps prefix aggregates of values
//! stored at `usize` positions, with point updates and prefix queries in
//! O(log n).
//!
//! Two trees are offered: [`FixedSizeFenwickTree`], whose capacity is set at
//! construction and which rejects indexes beyond it, and
//! [`GrowingFenwickTree`], which grows on demand and clamps queries to its
//! highest index.
use vstd::prelude::*;

pub mod index;
pub mod value;
pub mod sums;
pub mod fixed_size_tree;
pub mod growing_tree;
pub mod laws;
pub mod prelude;

pub use fixed_size_tree::FixedSizeFenwickTree;
pub use growing_tree::GrowingFenwickTree;
pub use index::TreeIndex;
pub use value::FenwickTreeValue;

verus! {

/// The one error a tree reports.
#[derive(Debug, PartialEq, Eq, Structural)]
pub enum TreeError {
    /// The index lies outside the tree.
    IndexOutOfBounds(usize),
}

/// What `range_query` returns from the two prefix queries it makes: the
/// first error, else the prefix through `to` with the prefix through `from`
/// taken out.
pub open spec fn range_result<V: FenwickTreeValue>(
    from: Result<V, TreeError>,
    to: Result<V, TreeError>,
) -> Result<V, TreeError> {
    match from {
        Err(e) => Err(e),
        Ok(a) => match to {
            Err(e) => Err(e),
            Ok(b) => Ok(V::minus(b, a)),
        },
    }
}

/// The operations of a Fenwick tree.
pub trait FenwickTree: Sized {
    type Value: FenwickTreeValue;

    /// The tree's internal invariant, which every operation keeps.
    spec fn well_formed(&self) -> bool;

    /// What `query(idx)` returns on this tree.
    spec fn spec_query(&self, idx: usize) -> Result<Self::Value, TreeError>;

    /// `update(idx, _)` may be called: the tree's size stays within `usize`.
    spec fn update_fits(&self, idx: usize) -> bool;

    /// The merge of the values at all indexes up to and including `idx`.
    ///
    /// A fixed-size tree fails with `IndexOutOfBounds(idx)` when `idx` is
    /// not below its capacity; a growing tree never fails.
    fn query(&self, idx: usize) -> (r: Result<Self::Value, TreeError>)
        requires
            self.well_formed(),
        ensures
            r == self.spec_query(idx),
    ;

    /// Merges `value` into the value at `idx`.
    ///
    /// A fixed-size tree fails with `IndexOutOfBounds(idx)` when `idx` is
    /// above its capacity; a growing tree grows to hold `idx`.
    fn update(&mut self, idx: usize, value: Self::Value) -> (r: Result<(), TreeError>)
        requires
            old(self).well_formed(),
            old(self).update_fits(idx),
        ensures
            final(self).well_formed(),
    ;

    /// The merge of the values at `from + 1 ..= to`: the prefix through `to`
    /// with the prefix through `from` taken out.
    fn range_query(&self, from: usize, to: usize) -> (r: Result<Self::Value, TreeError>)
        requires
            self.well_formed(),
        ensures
            r == range_result(self.spec_query(from), self.spec_query(to)),
    {
        let from_sum = match self.query(from) {
            Ok(v) => v,
            Err(e) => return Err(e),
        };
        let to_sum = match self.query(to) {
            Ok(v) => v,
            Err(e) => return Err(e),
        };
        Ok(to_sum.substract(from_sum))
    }
}

} // verus!
