//! An in-process store of five kinds of data under string keys: scalars,
//! lists, hashes, sets and sorted sets. `DCS` shares the five collections
//! between threads, each behind a lock of its own; the collections
//! themselves (`Scalars`, `Lists`, `Hashes`, `Sets`, `SortedSets`) can be
//! used alone by one owner.

pub mod hashes;
pub mod keyed;
pub mod laws;
pub mod lists;
pub mod model;
pub mod scalars;
pub mod score;
pub mod sets;
pub mod sorted_set;
pub mod sorted_sets;
pub mod store;
pub mod sync;
pub mod text;

pub use crate::hashes::Hashes;
pub use crate::lists::Lists;
pub use crate::scalars::Scalars;
pub use crate::score::Score;
pub use crate::sets::Sets;
pub use crate::sorted_set::SortedSet;
pub use crate::sorted_sets::SortedSets;
pub use crate::store::StoreError;
pub use crate::store::DCS;
