//! A sequence whose slots are each written at most once, with an exact
//! account of how many slots hold a value. Whole-array views are handed out
//! only once every slot has been written.

mod capacity;
pub mod container;
pub mod model;

pub use container::{OnceVec, OnceVecError};
