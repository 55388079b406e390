//! Core identifiers and the rule on which cores may receive work.
use vstd::prelude::*;

verus! {

/// Number of cores in the system.
pub const CORE_COUNT: u32 = 4;

/// The core that sets up the registry, dispatches and joins.
pub const PRIMARY_CORE: u32 = 0;

/// A core that runs a worker loop: any identifier in range but the primary.
pub open spec fn is_worker_core(core: u32) -> bool {
    PRIMARY_CORE < core && core < CORE_COUNT
}

/// Position of a worker core's context in the registry (contexts exist only
/// for the non-primary cores).
pub open spec fn slot_of(core: u32) -> int {
    core - 1
}

/// Tells whether `core` may be the target of a dispatch.
pub fn is_dispatch_target(core: u32) -> (r: bool)
    ensures
        r == is_worker_core(core),
{
    core != PRIMARY_CORE && core < CORE_COUNT
}

} // verus!
