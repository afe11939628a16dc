//! The public types and traits, for a glob import.
pub use crate::fixed_size_tree::FixedSizeFenwickTree;
pub use crate::growing_tree::GrowingFenwickTree;
pub use crate::value::FenwickTreeValue;
pub use crate::FenwickTree;
pub use crate::TreeError;
