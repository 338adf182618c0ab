use vstd::prelude::*;

pub mod types;
pub mod delta;
pub mod iceberg;

verus! {

} // verus!
