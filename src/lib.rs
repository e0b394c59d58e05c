use vstd::prelude::*;

pub mod config;
pub mod event_loop;
pub mod flat;
pub mod manager;
pub mod naming;
pub mod reconcile;
pub mod tree;

verus! {

} // verus!
