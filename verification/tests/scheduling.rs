use audit_notifier_core::schedule::{Event, NextStep, Scheduler};
use audit_notifier_core::status::{Severity, Status, Update};

fn upd(pkg: &str) -> Update {
    Update {
        severity: Severity::Medium,
        pkg: pkg.to_string(),
        text: String::new(),
        link: String::new(),
    }
}

#[test]
fn click_starts_check_immediately() {
    let mut s = Scheduler::new(7200, 14400);
    s.record_result(&Status::MissingUpdates(vec![]));
    assert_eq!(s.next_step(5, 10000, Some(&Event::Click)), NextStep::StartCheck);
    s.record_result(&Status::MissingUpdates(vec![upd("linux")]));
    assert_eq!(s.next_step(5, 10000, Some(&Event::Click)), NextStep::StartCheck);
}

#[test]
fn signal_ignored_when_nothing_pending() {
    let mut s = Scheduler::new(7200, 14400);
    s.record_result(&Status::MissingUpdates(vec![]));
    assert_eq!(s.next_step(3, 10, Some(&Event::Inotify)), NextStep::KeepWaiting(7));
}

#[test]
fn signal_checks_when_updates_pending() {
    let mut s = Scheduler::new(7200, 14400);
    s.record_result(&Status::MissingUpdates(vec![upd("linux")]));
    assert_eq!(s.next_step(3, 10, Some(&Event::Inotify)), NextStep::StartCheck);
}

#[test]
fn signal_checks_after_error() {
    let mut s = Scheduler::new(7200, 14400);
    s.record_result(&Status::Error("audit failed".to_string()));
    assert_eq!(s.next_step(3, 10, Some(&Event::Inotify)), NextStep::StartCheck);
}

#[test]
fn fresh_scheduler_has_nothing_pending() {
    let s = Scheduler::new(7200, 14400);
    assert_eq!(s.next_step(3, 10, Some(&Event::Inotify)), NextStep::KeepWaiting(7));
}

#[test]
fn timeout_starts_check() {
    let s = Scheduler::new(7200, 14400);
    assert_eq!(s.next_step(10, 10, None), NextStep::StartCheck);
    assert_eq!(s.next_step(3, 10, None), NextStep::StartCheck);
}

#[test]
fn jittered_wait_stays_in_range() {
    let s = Scheduler::new(7200, 14400);
    for _ in 0..200 {
        let w = s.fresh_wait_secs();
        assert!(w >= 7200);
        assert!(w < 7200 + 14400);
    }
}
