use vstd::prelude::*;

pub mod cache;
pub mod command;
pub mod container;
pub mod coordinator;
pub mod framing;
pub mod job;
pub mod naming;
pub mod task;
pub mod worker;

verus! {

} // verus!
