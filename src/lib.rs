//! An ordered vector that holds each value at most once.
//!
//! Every insertion first scans the stored values with the element type's
//! `PartialEq`; a value that compares equal to one already present is handed
//! back to the caller instead of being stored. Read access goes through
//! `Deref` to the underlying `Vec`, and no mutable access to single entries
//! is offered, so the stored values cannot be turned into duplicates.
pub mod model;
pub mod unique_vec;

pub use unique_vec::{UniqueVec, UniqueVecEq};
