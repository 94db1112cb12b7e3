use vstd::prelude::*;

pub mod cache;
pub mod cache_node;
pub mod heap_order;
pub mod indexed_min_heap;
pub mod order;

verus! {

} // verus!
