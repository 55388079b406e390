//! Dispatch of work items from the primary core to the other cores of a
//! small multi-core system, and the join that waits for a core to drain.
//!
//! The registry of per-core execution contexts is an owned value: the primary
//! core creates it once and hands it to every call that dispatches, joins or
//! runs a worker step. Each step is a verified transition of that value; the
//! program around the library performs the blocking and the execution itself.
use vstd::prelude::*;

pub mod core_id;
pub mod registry;

verus! {

} // verus!
