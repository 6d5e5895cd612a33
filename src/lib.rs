use vstd::prelude::*;

pub mod cache;
pub mod environment;
pub mod session;
pub mod snapshot;

verus! {

} // verus!
