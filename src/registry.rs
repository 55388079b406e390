//! The per-core registry: one execution context for each worker core, each a
//! FIFO of pending work items with an in-flight count.
use crate::core_id::{is_dispatch_target, is_worker_core, slot_of, CORE_COUNT, PRIMARY_CORE};
use std::collections::VecDeque;
use vstd::prelude::*;

verus! {

/// Why a dispatch was refused.
#[derive(Debug, Clone, Copy, PartialEq, Eq, Structural)]
pub enum DispatchError {
    /// The target is the primary core or lies outside the core range.
    InvalidTarget,
    /// The registry has not been created yet.
    Uninitialized,
}

/// Execution context of one worker core.
///
/// `dispatched` holds every item ever submitted to the core, in submission
/// order, and `started` every item the worker has taken, in the order taken.
struct CoreExecution<T> {
    queue: VecDeque<T>,
    in_flight: u64,
    executing: bool,
    dispatched: Ghost<Seq<T>>,
    started: Ghost<Seq<T>>,
}

impl<T> CoreExecution<T> {
    spec fn wf(&self) -> bool {
        &&& self.dispatched@ == self.started@ + self.queue@
        &&& self.in_flight as int == self.queue@.len() + (if self.executing { 1int } else { 0int })
        &&& self.executing ==> self.started@.len() > 0
    }

    fn new() -> (r: Self)
        ensures
            r.wf(),
            r.queue@ == Seq::<T>::empty(),
            r.in_flight == 0,
            !r.executing,
            r.dispatched@ == Seq::<T>::empty(),
            r.started@ == Seq::<T>::empty(),
    {
        CoreExecution {
            queue: VecDeque::new(),
            in_flight: 0,
            executing: false,
            dispatched: Ghost(Seq::empty()),
            started: Ghost(Seq::empty()),
        }
    }

    fn submit(&mut self, item: T)
        requires
            old(self).wf(),
            old(self).in_flight < u64::MAX,
        ensures
            final(self).wf(),
            final(self).queue@ == old(self).queue@.push(item),
            final(self).in_flight == old(self).in_flight + 1,
            final(self).executing == old(self).executing,
            final(self).dispatched@ == old(self).dispatched@.push(item),
            final(self).started@ == old(self).started@,
    {
        self.in_flight = self.in_flight + 1;
        self.queue.push_back(item);
        self.dispatched = Ghost(self.dispatched@.push(item));
        assert(self.dispatched@ =~= self.started@ + self.queue@);
    }

    fn receive(&mut self) -> (r: Option<T>)
        requires
            old(self).wf(),
            !old(self).executing,
        ensures
            final(self).wf(),
            final(self).in_flight == old(self).in_flight,
            final(self).dispatched@ == old(self).dispatched@,
            old(self).queue@.len() == 0 ==> {
                &&& r is None
                &&& final(self).queue@ == old(self).queue@
                &&& !final(self).executing
                &&& final(self).started@ == old(self).started@
            },
            old(self).queue@.len() > 0 ==> {
                &&& r == Some(old(self).queue@[0])
                &&& final(self).queue@ == old(self).queue@.drop_first()
                &&& final(self).executing
                &&& final(self).started@ == old(self).started@.push(old(self).queue@[0])
            },
    {
        let r = self.queue.pop_front();
        match r {
            Some(item) => {
                self.executing = true;
                self.started = Ghost(self.started@.push(item));
                assert(self.dispatched@ =~= self.started@ + self.queue@);
                Some(item)
            },
            None => None,
        }
    }

    fn finish(&mut self)
        requires
            old(self).wf(),
            old(self).executing,
        ensures
            final(self).wf(),
            final(self).in_flight == old(self).in_flight - 1,
            !final(self).executing,
            final(self).queue@ == old(self).queue@,
            final(self).dispatched@ == old(self).dispatched@,
            final(self).started@ == old(self).started@,
    {
        self.in_flight = self.in_flight - 1;
        self.executing = false;
    }
}

/// The table of execution contexts, one for each worker core, indexed by
/// core identifier minus one.
pub struct Registry<T> {
    cores: Vec<CoreExecution<T>>,
}

impl<T> Registry<T> {
    /// The registry's invariant: one well-formed context per worker core.
    pub closed spec fn wf(&self) -> bool {
        &&& self.cores@.len() == CORE_COUNT - 1
        &&& forall|i: int| 0 <= i < self.cores@.len() ==> (#[trigger] self.cores@[i]).wf()
    }

    /// Items submitted to `core` and not yet taken by its worker, oldest first.
    pub closed spec fn pending(&self, core: u32) -> Seq<T> {
        self.cores@[slot_of(core)].queue@
    }

    /// The in-flight count of `core`.
    pub closed spec fn in_flight(&self, core: u32) -> nat {
        self.cores@[slot_of(core)].in_flight as nat
    }

    /// Whether the worker of `core` is running an item.
    pub closed spec fn executing(&self, core: u32) -> bool {
        self.cores@[slot_of(core)].executing
    }

    /// Every item ever submitted to `core`, in submission order.
    pub closed spec fn dispatched(&self, core: u32) -> Seq<T> {
        self.cores@[slot_of(core)].dispatched@
    }

    /// Every item the worker of `core` has taken, in the order taken.
    pub closed spec fn started(&self, core: u32) -> Seq<T> {
        self.cores@[slot_of(core)].started@
    }

    /// Number of items of `core` whose execution has completed: the first
    /// `finished` entries of `dispatched`.
    pub open spec fn finished(&self, core: u32) -> int {
        self.started(core).len() - (if self.executing(core) { 1int } else { 0int })
    }

    /// Everything the registry holds for `core` is the same in `self` and `other`.
    pub open spec fn same_core(&self, other: &Self, core: u32) -> bool {
        &&& self.pending(core) == other.pending(core)
        &&& self.in_flight(core) == other.in_flight(core)
        &&& self.executing(core) == other.executing(core)
        &&& self.dispatched(core) == other.dispatched(core)
        &&& self.started(core) == other.started(core)
    }

    /// Every worker core but `core` is left as it was.
    pub open spec fn others_unchanged(&self, other: &Self, core: u32) -> bool {
        &&& forall|c: u32|
            is_worker_core(c) && c != core ==> #[trigger] self.pending(c) == other.pending(c)
        &&& forall|c: u32|
            is_worker_core(c) && c != core ==> #[trigger] self.in_flight(c) == other.in_flight(c)
        &&& forall|c: u32|
            is_worker_core(c) && c != core ==> #[trigger] self.executing(c) == other.executing(c)
        &&& forall|c: u32|
            is_worker_core(c) && c != core ==> #[trigger] self.dispatched(c) == other.dispatched(
                c,
            )
        &&& forall|c: u32|
            is_worker_core(c) && c != core ==> #[trigger] self.started(c) == other.started(c)
    }

    /// Creates the registry: a fresh empty context with a zero in-flight count
    /// for each worker core.
    pub fn new() -> (r: Self)
        ensures
            r.wf(),
            forall|c: u32| is_worker_core(c) ==> #[trigger] r.pending(c) == Seq::<T>::empty(),
            forall|c: u32| is_worker_core(c) ==> #[trigger] r.in_flight(c) == 0,
            forall|c: u32| is_worker_core(c) ==> !#[trigger] r.executing(c),
            forall|c: u32| is_worker_core(c) ==> #[trigger] r.dispatched(c) == Seq::<T>::empty(),
            forall|c: u32| is_worker_core(c) ==> #[trigger] r.started(c) == Seq::<T>::empty(),
    {
        let mut cores: Vec<CoreExecution<T>> = Vec::new();
        let mut core: u32 = PRIMARY_CORE + 1;
        while core < CORE_COUNT
            invariant
                PRIMARY_CORE + 1 <= core <= CORE_COUNT,
                cores@.len() == core - 1,
                forall|i: int|
                    0 <= i < cores@.len() ==> {
                        &&& (#[trigger] cores@[i]).wf()
                        &&& cores@[i].queue@ == Seq::<T>::empty()
                        &&& cores@[i].in_flight == 0
                        &&& !cores@[i].executing
                        &&& cores@[i].dispatched@ == Seq::<T>::empty()
                        &&& cores@[i].started@ == Seq::<T>::empty()
                    },
            decreases CORE_COUNT - core,
        {
            cores.push(CoreExecution::new());
            core = core + 1;
        }
        Registry { cores }
    }

    /// The in-flight count of `core`, or zero where `core` is no worker core.
    pub fn in_flight_count(&self, core: u32) -> (r: u64)
        requires
            self.wf(),
        ensures
            is_worker_core(core) ==> r == self.in_flight(core),
            !is_worker_core(core) ==> r == 0,
    {
        if is_dispatch_target(core) {
            self.cores[(core - 1) as usize].in_flight
        } else {
            0
        }
    }

    /// Submits `item` to the worker of `core`: the in-flight count goes up by
    /// one, then the item joins the end of the core's queue. The primary core
    /// and identifiers out of range are refused and nothing is enqueued.
    pub fn dispatch(&mut self, core: u32, item: T) -> (r: Result<(), DispatchError>)
        requires
            old(self).wf(),
            is_worker_core(core) ==> old(self).in_flight(core) < u64::MAX,
        ensures
            final(self).wf(),
            is_worker_core(core) ==> {
                &&& r is Ok
                &&& final(self).pending(core) == old(self).pending(core).push(item)
                &&& final(self).in_flight(core) == old(self).in_flight(core) + 1
                &&& final(self).executing(core) == old(self).executing(core)
                &&& final(self).dispatched(core) == old(self).dispatched(core).push(item)
                &&& final(self).started(core) == old(self).started(core)
                &&& final(self).others_unchanged(old(self), core)
            },
            !is_worker_core(core) ==> {
                &&& r == Err::<(), DispatchError>(DispatchError::InvalidTarget)
                &&& *final(self) == *old(self)
            },
    {
        if !is_dispatch_target(core) {
            return Err(DispatchError::InvalidTarget);
        }
        let slot = (core - 1) as usize;
        let ghost before = self.cores@;
        self.cores[slot].submit(item);
        assert forall|i: int| 0 <= i < self.cores@.len() implies (#[trigger] self.cores@[i]).wf() by {
            if i != slot as int {
                assert(self.cores@[i] == before[i]);
            }
        }
        assert forall|c: u32| is_worker_core(c) && c != core implies self.same_core(old(self), c) by {
            assert(slot_of(c) != slot as int);
        }
        Ok(())
    }

    /// One poll of the join on `core`: true once nothing is in flight there.
    /// The primary core and identifiers out of range have nothing to wait for.
    pub fn join_ready(&self, core: u32) -> (r: bool)
        requires
            self.wf(),
        ensures
            r == (!is_worker_core(core) || self.in_flight(core) == 0),
    {
        self.in_flight_count(core) == 0
    }

    /// The worker of `core`, while idle, receives the oldest pending item, if
    /// any, and turns to executing it.
    pub fn take_next(&mut self, core: u32) -> (r: Option<T>)
        requires
            old(self).wf(),
            is_worker_core(core),
            !old(self).executing(core),
        ensures
            final(self).wf(),
            final(self).in_flight(core) == old(self).in_flight(core),
            final(self).dispatched(core) == old(self).dispatched(core),
            final(self).others_unchanged(old(self), core),
            old(self).pending(core).len() == 0 ==> {
                &&& r is None
                &&& final(self).same_core(old(self), core)
            },
            old(self).pending(core).len() > 0 ==> {
                &&& r == Some(old(self).pending(core)[0])
                &&& final(self).pending(core) == old(self).pending(core).drop_first()
                &&& final(self).executing(core)
                &&& final(self).started(core) == old(self).started(core).push(
                    old(self).pending(core)[0],
                )
            },
    {
        let slot = (core - 1) as usize;
        let ghost before = self.cores@;
        let r = self.cores[slot].receive();
        assert forall|i: int| 0 <= i < self.cores@.len() implies (#[trigger] self.cores@[i]).wf() by {
            if i != slot as int {
                assert(self.cores@[i] == before[i]);
            }
        }
        assert forall|c: u32| is_worker_core(c) && c != core implies self.same_core(old(self), c) by {
            assert(slot_of(c) != slot as int);
        }
        r
    }

    /// The worker of `core` has run its current item to completion: the
    /// in-flight count goes down by one and the worker is idle again.
    pub fn complete(&mut self, core: u32)
        requires
            old(self).wf(),
            is_worker_core(core),
            old(self).executing(core),
        ensures
            final(self).wf(),
            final(self).in_flight(core) == old(self).in_flight(core) - 1,
            !final(self).executing(core),
            final(self).pending(core) == old(self).pending(core),
            final(self).dispatched(core) == old(self).dispatched(core),
            final(self).started(core) == old(self).started(core),
            final(self).finished(core) == old(self).finished(core) + 1,
            final(self).others_unchanged(old(self), core),
    {
        let slot = (core - 1) as usize;
        let ghost before = self.cores@;
        self.cores[slot].finish();
        assert forall|i: int| 0 <= i < self.cores@.len() implies (#[trigger] self.cores@[i]).wf() by {
            if i != slot as int {
                assert(self.cores@[i] == before[i]);
            }
        }
        assert forall|c: u32| is_worker_core(c) && c != core implies self.same_core(old(self), c) by {
            assert(slot_of(c) != slot as int);
        }
    }
}

/// Dispatch through a registry that may not exist yet: the primary core and
/// identifiers out of range give `InvalidTarget`; a missing registry gives
/// `Uninitialized`; otherwise the item is enqueued as `Registry::dispatch` does.
pub fn run_on_core<T>(registry: &mut Option<Registry<T>>, core: u32, item: T) -> (r: Result<
    (),
    DispatchError,
>)
    requires
        (*old(registry)) is Some ==> (*old(registry))->0.wf(),
        (*old(registry)) is Some && is_worker_core(core) ==> (*old(registry))->0.in_flight(core)
            < u64::MAX,
    ensures
        (*final(registry)) is Some <==> (*old(registry)) is Some,
        (*final(registry)) is Some ==> (*final(registry))->0.wf(),
        !is_worker_core(core) ==> {
            &&& r == Err::<(), DispatchError>(DispatchError::InvalidTarget)
            &&& *final(registry) == *old(registry)
        },
        is_worker_core(core) && (*old(registry)) is None ==> r == Err::<(), DispatchError>(
            DispatchError::Uninitialized,
        ),
        is_worker_core(core) && (*old(registry)) is Some ==> {
            let before = (*old(registry))->0;
            let after = (*final(registry))->0;
            &&& r is Ok
            &&& after.pending(core) == before.pending(core).push(item)
            &&& after.in_flight(core) == before.in_flight(core) + 1
            &&& after.executing(core) == before.executing(core)
            &&& after.dispatched(core) == before.dispatched(core).push(item)
            &&& after.started(core) == before.started(core)
            &&& after.others_unchanged(&before, core)
        },
{
    if !is_dispatch_target(core) {
        return Err(DispatchError::InvalidTarget);
    }
    match registry {
        Some(reg) => reg.dispatch(core, item),
        None => Err(DispatchError::Uninitialized),
    }
}

/// One poll of the join on `core` through a registry that may not exist yet:
/// true once the join may return. Without a registry, and for the primary
/// core or an identifier out of range, the join returns at once.
pub fn wait_for_core<T>(registry: &Option<Registry<T>>, core: u32) -> (r: bool)
    requires
        (*registry) is Some ==> (*registry)->0.wf(),
    ensures
        r == match registry {
            Some(reg) => !is_worker_core(core) || reg.in_flight(core) == 0,
            None => true,
        },
{
    match registry {
        Some(reg) => reg.join_ready(core),
        None => true,
    }
}

/// The in-flight count of a worker core is the number of items dispatched to
/// it whose execution has not completed; so the join on that core is ready
/// exactly when every item dispatched to it so far has completed.
pub proof fn lemma_in_flight_counts_unfinished<T>(reg: &Registry<T>, core: u32)
    requires
        reg.wf(),
        is_worker_core(core),
    ensures
        0 <= reg.finished(core) <= reg.dispatched(core).len(),
        reg.in_flight(core) == reg.dispatched(core).len() - reg.finished(core),
        reg.in_flight(core) == 0 <==> reg.finished(core) == reg.dispatched(core).len(),
{
    assert(reg.cores@[slot_of(core)].wf());
}

/// The join covers every earlier dispatch: once a later state of the registry
/// has nothing in flight on `core`, every item dispatched to `core` up to an
/// earlier state has completed. The history of dispatches only grows, so the
/// earlier history is a prefix of the later one.
pub proof fn lemma_join_covers_earlier_dispatches<T>(
    earlier: &Registry<T>,
    later: &Registry<T>,
    core: u32,
)
    requires
        later.wf(),
        is_worker_core(core),
        earlier.dispatched(core).len() <= later.dispatched(core).len(),
        earlier.dispatched(core) == later.dispatched(core).take(
            earlier.dispatched(core).len() as int,
        ),
        later.in_flight(core) == 0,
    ensures
        later.finished(core) >= earlier.dispatched(core).len(),
        forall|i: int|
            0 <= i < earlier.dispatched(core).len() ==> i < later.finished(core) && (
            #[trigger] earlier.dispatched(core)[i]) == later.dispatched(core)[i],
{
    lemma_in_flight_counts_unfinished(later, core);
    assert forall|i: int| 0 <= i < earlier.dispatched(core).len() implies (
    #[trigger] earlier.dispatched(core)[i]) == later.dispatched(core)[i] by {
        assert(later.dispatched(core).take(earlier.dispatched(core).len() as int)[i]
            == later.dispatched(core)[i]);
    }
}

/// An item dispatched to a worker core keeps that core's in-flight count above
/// zero until its execution has completed.
pub proof fn lemma_unfinished_item_keeps_count_positive<T>(reg: &Registry<T>, core: u32, i: int)
    requires
        reg.wf(),
        is_worker_core(core),
        reg.finished(core) <= i < reg.dispatched(core).len(),
    ensures
        reg.in_flight(core) > 0,
{
    lemma_in_flight_counts_unfinished(reg, core);
}

/// Items run on a worker core in the order they were dispatched to it, each
/// exactly once: the items taken so far are the oldest dispatched ones, in
/// order, and the pending ones are all the rest, in order.
pub proof fn lemma_fifo_exactly_once<T>(reg: &Registry<T>, core: u32)
    requires
        reg.wf(),
        is_worker_core(core),
    ensures
        reg.started(core).len() <= reg.dispatched(core).len(),
        reg.started(core) == reg.dispatched(core).take(reg.started(core).len() as int),
        reg.pending(core) == reg.dispatched(core).skip(reg.started(core).len() as int),
        reg.dispatched(core).len() == reg.started(core).len() + reg.pending(core).len(),
{
    let ctx = reg.cores@[slot_of(core)];
    assert(ctx.wf());
    assert(reg.started(core) =~= reg.dispatched(core).take(reg.started(core).len() as int));
    assert(reg.pending(core) =~= reg.dispatched(core).skip(reg.started(core).len() as int));
}

/// Taking the next item from a worker core hands out the oldest dispatched
/// item that has not run yet: the one at position `started(core).len()` of the
/// submission order.
pub proof fn lemma_take_next_is_oldest<T>(reg: &Registry<T>, core: u32)
    requires
        reg.wf(),
        is_worker_core(core),
        reg.pending(core).len() > 0,
    ensures
        reg.started(core).len() < reg.dispatched(core).len(),
        reg.pending(core)[0] == reg.dispatched(core)[reg.started(core).len() as int],
{
    lemma_fifo_exactly_once(reg, core);
}

} // verus!
