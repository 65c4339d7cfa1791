//! Decisions of a graceful-shutdown coordinator: which workers to tell to stop, and
//! how their outcomes and the shutdown deadline turn into one list of failures.
use vstd::prelude::*;

pub mod error;
pub mod shutdown;

verus! {

} // verus!
