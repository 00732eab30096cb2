use tracker::record::CompletedInterval;
use tracker::render::{cancel_message, running_line, start_message, stop_message, stopping_banner,
    timer_running_banner};
use tracker::store::{CancelOutcome, StartOutcome, StopOutcome, Store};

fn fresh_store() -> Store {
    Store::new()
}

#[test]
fn start_sets_active_record() {
    let mut s = fresh_store();
    let out = s.start(1000, "acme".to_string(), "design".to_string());
    assert!(matches!(out, StartOutcome::Started));
    let t = s.active.as_ref().unwrap();
    assert_eq!(t.start_time, 1000);
    assert_eq!(t.project_code, "acme");
    assert_eq!(t.task, "design");
    assert_eq!(s.log.len(), 0);
}

#[test]
fn start_then_status_reports_running_with_zero_elapsed() {
    let mut s = fresh_store();
    s.start(5000, "acme".to_string(), "design".to_string());
    let r = s.running_status(5000).unwrap();
    assert_eq!(r.project_code, "acme");
    assert_eq!(r.task, "design");
    assert_eq!(r.elapsed, 0);
}

#[test]
fn start_timer() {
    let mut s = fresh_store();
    let out = s.start(1000, "acme".to_string(), "design".to_string());
    let msg = start_message(&out, &"acme".to_string());
    assert!(msg.contains("Starting"));
    assert_eq!(msg, "Starting timer for project acme...");
}

#[test]
fn start_second_timer() {
    let mut s = fresh_store();
    s.start(1000, "acme".to_string(), "design".to_string());
    let out = s.start(2000, "other".to_string(), "docs".to_string());
    let msg = start_message(&out, &"other".to_string());
    assert!(msg.contains("running"));
    // The first record is untouched.
    let t = s.active.as_ref().unwrap();
    assert_eq!(t.start_time, 1000);
    assert_eq!(t.project_code, "acme");
    assert_eq!(t.task, "design");
}

#[test]
fn status_timer() {
    let mut s = fresh_store();
    s.start(1000, "acme".to_string(), "design".to_string());
    assert!(timer_running_banner().contains("running"));
    let r = s.running_status(8200).unwrap();
    // 7200 seconds: two hours, zero minutes.
    assert_eq!(r.elapsed, 7200);
    let line = running_line(&r.project_code, r.elapsed);
    assert_eq!(line, "Timer: acme running 2 hrs 0 mins");
}

#[test]
fn stop_timer() {
    let mut s = fresh_store();
    s.start(1000, "acme".to_string(), "design".to_string());
    assert!(stopping_banner().contains("Stopping"));
    let out = s.stop(1300, false);
    match out {
        StopOutcome::Logged(c) => {
            assert_eq!(c.project_code, "acme");
            assert_eq!(c.duration, 300);
        },
        _ => panic!("a 300 second run must be logged"),
    }
    assert!(s.active.is_none());
    assert_eq!(s.log.len(), 1);
}

#[test]
fn stop_when_idle_is_a_no_op() {
    let mut s = fresh_store();
    let out = s.stop(1000, false);
    assert!(matches!(out, StopOutcome::NotRunning));
    assert_eq!(s.log.len(), 0);
    assert!(s.active.is_none());
    assert_eq!(stop_message(&out), "There is no running timer to stop");
}

#[test]
fn short_stop_discards_but_deletes_the_record() {
    let mut s = fresh_store();
    s.start(1000, "acme".to_string(), "design".to_string());
    // 120 seconds is not over the threshold.
    let out = s.stop(1120, false);
    assert!(matches!(out, StopOutcome::Discarded));
    assert!(s.active.is_none());
    assert_eq!(s.log.len(), 0);
    assert!(stop_message(&out).contains("discarding"));
}

#[test]
fn short_stop_with_quash_is_logged() {
    let mut s = fresh_store();
    s.start(1000, "acme".to_string(), "design".to_string());
    let out = s.stop(1010, true);
    match out {
        StopOutcome::Logged(c) => {
            assert_eq!(c.start_time, 1000);
            assert_eq!(c.end_time, 1010);
            assert_eq!(c.duration, 10);
            assert_eq!(c.project_code, "acme");
            assert_eq!(c.task, "design");
        },
        _ => panic!("quash must log even a short run"),
    }
    assert_eq!(s.log.len(), 1);
}

#[test]
fn long_stop_logs_matching_interval() {
    let mut s = fresh_store();
    s.start(7000, "acme".to_string(), "design".to_string());
    let out = s.stop(7121, false);
    match out {
        StopOutcome::Logged(c) => {
            assert_eq!(c.start_time, 7000);
            assert_eq!(c.end_time, 7121);
            assert_eq!(c.duration, 121);
            assert_eq!(c.project_code, "acme");
            assert_eq!(c.task, "design");
        },
        _ => panic!("121 seconds is over the threshold"),
    }
    let logged: &CompletedInterval = &s.log[0];
    assert_eq!(logged.duration, 121);
}

#[test]
fn cancel_deletes_without_logging() {
    let mut s = fresh_store();
    s.start(1000, "acme".to_string(), "design".to_string());
    let out = s.cancel();
    assert!(matches!(out, CancelOutcome::Cancelled));
    assert!(s.active.is_none());
    assert_eq!(s.log.len(), 0);
    assert_eq!(cancel_message(&out), "Timer cancelled.");
}

#[test]
fn cancel_when_idle_is_a_no_op() {
    let mut s = fresh_store();
    let out = s.cancel();
    assert!(matches!(out, CancelOutcome::NotRunning));
    assert_eq!(cancel_message(&out), "There is no running timer to cancel.");
}
