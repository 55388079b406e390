use ruspiro_test_framework::core_id::{is_dispatch_target, CORE_COUNT, PRIMARY_CORE};
use ruspiro_test_framework::registry::{run_on_core, wait_for_core, DispatchError, Registry};
use std::cell::RefCell;
use std::rc::Rc;

type Job = Box<dyn FnOnce()>;

/// Runs the worker of `core` until its queue is drained, the way the worker
/// loop does: take an item, execute it, mark it complete.
fn drain(reg: &mut Registry<Job>, core: u32) -> usize {
    let mut ran: usize = 0;
    while let Some(job) = reg.take_next(core) {
        job();
        reg.complete(core);
        ran += 1;
    }
    ran
}

fn logging_job(log: &Rc<RefCell<Vec<&'static str>>>, name: &'static str) -> Job {
    let log = Rc::clone(log);
    Box::new(move || log.borrow_mut().push(name))
}

#[test]
fn three_cores_two_items_on_core_one() {
    let log: Rc<RefCell<Vec<&'static str>>> = Rc::new(RefCell::new(Vec::new()));
    let mut registry: Option<Registry<Job>> = Some(Registry::new());
    assert_eq!(run_on_core(&mut registry, 1, logging_job(&log, "core 1 first")), Ok(()));
    assert_eq!(run_on_core(&mut registry, 2, logging_job(&log, "core 2")), Ok(()));
    assert_eq!(run_on_core(&mut registry, 3, logging_job(&log, "core 3")), Ok(()));
    assert_eq!(run_on_core(&mut registry, 1, logging_job(&log, "core 1 second")), Ok(()));
    assert!(log.borrow().is_empty());

    for core in 1..CORE_COUNT {
        let reg = registry.as_mut().unwrap();
        assert!(!reg.join_ready(core));
        drain(reg, core);
        assert!(wait_for_core(&registry, core));
    }

    let log = log.borrow();
    assert_eq!(log.len(), 4);
    for name in ["core 1 first", "core 2", "core 3", "core 1 second"] {
        assert_eq!(log.iter().filter(|n| **n == name).count(), 1);
    }
    let first = log.iter().position(|n| *n == "core 1 first").unwrap();
    let second = log.iter().position(|n| *n == "core 1 second").unwrap();
    assert!(first < second);
}

#[test]
fn join_on_idle_core_returns_at_once() {
    let registry: Option<Registry<Job>> = Some(Registry::new());
    assert!(wait_for_core(&registry, 2));
    assert_eq!(registry.as_ref().unwrap().in_flight_count(2), 0);
}

#[test]
fn dispatch_to_primary_is_invalid_target() {
    let ran = Rc::new(RefCell::new(false));
    let flag = Rc::clone(&ran);
    let mut registry: Option<Registry<Job>> = Some(Registry::new());
    let r = run_on_core(&mut registry, PRIMARY_CORE, Box::new(move || *flag.borrow_mut() = true));
    assert_eq!(r, Err(DispatchError::InvalidTarget));
    let reg = registry.as_mut().unwrap();
    for core in 0..CORE_COUNT {
        assert_eq!(reg.in_flight_count(core), 0);
        assert!(reg.join_ready(core));
    }
    for core in 1..CORE_COUNT {
        assert_eq!(drain(reg, core), 0);
    }
    assert!(!*ran.borrow());
}

#[test]
fn dispatch_out_of_range_is_invalid_target() {
    let mut reg: Registry<u32> = Registry::new();
    assert_eq!(reg.dispatch(CORE_COUNT, 7), Err(DispatchError::InvalidTarget));
    assert_eq!(reg.dispatch(u32::MAX, 7), Err(DispatchError::InvalidTarget));
    assert_eq!(reg.in_flight_count(CORE_COUNT), 0);
    assert!(reg.join_ready(CORE_COUNT));
}

#[test]
fn dispatch_without_registry_is_uninitialized() {
    let mut registry: Option<Registry<u32>> = None;
    assert_eq!(run_on_core(&mut registry, 1, 5), Err(DispatchError::Uninitialized));
    assert_eq!(run_on_core(&mut registry, 0, 5), Err(DispatchError::InvalidTarget));
    assert!(registry.is_none());
    assert!(wait_for_core(&registry, 1));
}

#[test]
fn items_run_in_submission_order() {
    let mut reg: Registry<u32> = Registry::new();
    for item in 0..5u32 {
        assert_eq!(reg.dispatch(3, item), Ok(()));
    }
    let mut taken: Vec<u32> = Vec::new();
    while let Some(item) = reg.take_next(3) {
        taken.push(item);
        reg.complete(3);
    }
    assert_eq!(taken, vec![0, 1, 2, 3, 4]);
}

#[test]
fn in_flight_stays_positive_until_item_completes() {
    let mut reg: Registry<u32> = Registry::new();
    assert_eq!(reg.dispatch(1, 11), Ok(()));
    assert_eq!(reg.in_flight_count(1), 1);
    assert!(!reg.join_ready(1));
    assert_eq!(reg.take_next(1), Some(11));
    assert_eq!(reg.in_flight_count(1), 1);
    assert!(!reg.join_ready(1));
    reg.complete(1);
    assert_eq!(reg.in_flight_count(1), 0);
    assert!(reg.join_ready(1));
}

#[test]
fn each_item_is_taken_exactly_once() {
    let mut reg: Registry<u32> = Registry::new();
    assert_eq!(reg.dispatch(2, 1), Ok(()));
    assert_eq!(reg.dispatch(2, 2), Ok(()));
    assert_eq!(reg.take_next(2), Some(1));
    reg.complete(2);
    assert_eq!(reg.take_next(2), Some(2));
    reg.complete(2);
    assert_eq!(reg.take_next(2), None);
    assert_eq!(reg.in_flight_count(2), 0);
}

#[test]
fn cores_do_not_share_queues() {
    let mut reg: Registry<u32> = Registry::new();
    assert_eq!(reg.dispatch(1, 100), Ok(()));
    assert_eq!(reg.dispatch(2, 200), Ok(()));
    assert_eq!(reg.in_flight_count(3), 0);
    assert_eq!(reg.take_next(3), None);
    assert_eq!(reg.take_next(2), Some(200));
    assert_eq!(reg.in_flight_count(1), 1);
    assert_eq!(reg.take_next(1), Some(100));
}

#[test]
fn dispatch_targets() {
    assert!(!is_dispatch_target(0));
    assert!(is_dispatch_target(1));
    assert!(is_dispatch_target(2));
    assert!(is_dispatch_target(3));
    assert!(!is_dispatch_target(4));
}
