use ftp_sync::controller::{health_action, plan_health_sweep, HealthAction};
use ftp_sync::order::Order;
use ftp_sync::pool::{acquire_step, AcquireDecision, Pool, PoolBuilder, SWEEP_ATTEMPTS};
use ftp_sync::utils::FtpDirEntry;
use ftp_sync::watcher::Watcher;
use ftp_sync::CustomError;

#[test]
fn pool_hands_out_each_session_once() {
    let mut pool = Pool::with_size(2);
    assert_eq!(pool.len(), 2);
    let a = pool.get_free_connection().unwrap();
    let b = pool.get_free_connection().unwrap();
    assert_ne!(a, b);
}

#[test]
fn pool_exhaustion_after_exactly_five_sweeps() {
    let mut pool = Pool::with_size(2);
    pool.get_free_connection().unwrap();
    pool.get_free_connection().unwrap();
    let (r, attempts) = pool.acquire_free_counted();
    assert!(matches!(r, Err(CustomError::Ftp(_))));
    assert_eq!(attempts, SWEEP_ATTEMPTS);
    assert_eq!(attempts, 5);
}

#[test]
fn pool_release_makes_session_available_again() {
    let mut pool = Pool::with_size(1);
    let a = pool.get_free_connection().unwrap();
    assert!(pool.get_free_connection().is_err());
    pool.release(a);
    let b = pool.get_free_connection().unwrap();
    assert_eq!(a, b);
}

#[test]
fn acquire_step_decisions() {
    assert!(matches!(acquire_step(0, Some(3)), AcquireDecision::UseConnection(3)));
    assert!(matches!(acquire_step(0, None), AcquireDecision::SweepAgain));
    assert!(matches!(acquire_step(3, None), AcquireDecision::SweepAgain));
    assert!(matches!(acquire_step(4, None), AcquireDecision::PoolExhausted));
}

#[test]
fn pool_construction_reaches_target() {
    let mut b = PoolBuilder::new(3);
    b.step(true);
    b.step(true);
    assert!(!b.is_done());
    b.step(true);
    assert!(b.is_done());
    let pool = b.into_pool();
    assert_eq!(pool.len(), 3);
}

#[test]
fn pool_construction_degrades_after_failure_budget() {
    let mut b = PoolBuilder::new(3);
    b.step(false);
    b.step(true);
    // The failure budget counts every failed attempt, the one before the
    // first live session included: four more stay within it.
    for _ in 0..4 {
        b.step(false);
        assert!(!b.is_done());
    }
    b.step(false);
    assert!(b.is_done());
    let pool = b.into_pool();
    assert_eq!(pool.len(), 1);
}

#[test]
fn pool_construction_waits_for_first_session() {
    let mut b = PoolBuilder::new(2);
    for _ in 0..20 {
        b.step(false);
        assert!(!b.is_done());
    }
    b.step(true);
    b.step(true);
    assert!(b.is_done());
    assert_eq!(b.into_pool().len(), 2);
}

fn job(root: &str) -> Order {
    Order::new(&FtpDirEntry::Folder(root.to_string()), "/local/dest")
}

#[test]
fn duplicate_root_is_never_queued_twice() {
    let mut w = Watcher::new();
    let first = job("/in/batch1");
    assert!(w.should_enqueue(&first));
    w.push_pending(first);
    let again = job("/in/batch1");
    assert!(!w.should_enqueue(&again));
    w.push_pending(again);
    let head = w.get_pending();
    assert!(head.is_some());
    assert_eq!(head.unwrap().get_root_path().as_str(), "/in/batch1");
    assert!(w.get_pending().is_none());
}

#[test]
fn duplicate_root_blocked_while_running() {
    let mut w = Watcher::new();
    let first = job("/in/batch1");
    w.insert_running(first);
    let again = job("/in/batch1");
    assert!(!w.should_enqueue(&again));
    w.insert_running(again);
    let probe = job("/in/batch1");
    w.finish_job(&probe, true);
    assert!(w.should_enqueue(&probe));
}

#[test]
fn pending_queue_is_fifo() {
    let mut w = Watcher::new();
    w.push_pending(job("/in/a"));
    w.push_pending(job("/in/b"));
    w.push_pending(job("/in/c"));
    assert_eq!(w.get_pending().unwrap().get_root_path().as_str(), "/in/a");
    assert_eq!(w.get_pending().unwrap().get_root_path().as_str(), "/in/b");
    assert_eq!(w.get_pending().unwrap().get_root_path().as_str(), "/in/c");
    assert!(w.get_pending().is_none());
}

#[test]
fn failed_job_stays_in_running() {
    let mut w = Watcher::new();
    let j = job("/in/batch1");
    w.insert_running(j);
    let probe = job("/in/batch1");
    w.finish_job(&probe, false);
    assert!(!w.should_enqueue(&probe));
}

#[test]
fn health_actions_follow_probe_outcomes() {
    assert_eq!(health_action(None), HealthAction::SkipBusy);
    assert_eq!(health_action(Some(true)), HealthAction::Healthy);
    assert_eq!(health_action(Some(false)), HealthAction::Reconnect);
    let plan = plan_health_sweep(&vec![None, Some(true), Some(false)]);
    assert_eq!(
        plan,
        vec![HealthAction::SkipBusy, HealthAction::Healthy, HealthAction::Reconnect]
    );
}

#[test]
fn orders_are_equal_by_root_path_alone() {
    let unresolved = job("/in/batch1");
    let mut resolved = job("/in/batch1");
    let mut res = resolved.begin_resolve();
    res.step(vec![]);
    resolved.finish_resolve(res);
    assert!(unresolved == resolved);
    assert!(job("/in/batch1") != job("/in/batch2"));
}
