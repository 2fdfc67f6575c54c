//! Hand-managed contiguous containers and the search algorithms that run over them.

pub mod binary_search;
pub mod buffer;
pub mod counting;
pub mod dynamic_array;
pub mod fixed_array;
pub mod interpolation_search;
pub mod jump_search;
pub mod linear_search;
pub mod order;
pub mod rendering;
