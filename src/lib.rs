use vstd::prelude::*;

pub mod compress;
pub mod lines;
pub mod naming;
pub mod rotate;
pub mod source;
pub mod utils;

verus! {

} // verus!
