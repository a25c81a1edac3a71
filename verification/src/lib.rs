//! An in-place quicksort that records the shape of its own recursion.

pub mod frame;
pub mod laws;
pub mod partition;
pub mod ranges;
pub mod render;
pub mod sort;
