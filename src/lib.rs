//! A growable vector of slots: values go in at the lowest vacant slot, come
//! out by index, and leave their slot vacant for the next insertion.
pub mod slots;
pub mod collection;
pub mod iter;

pub use collection::{Collection, CollectionState, Op, TakeError};
pub use iter::CollectionIter;
