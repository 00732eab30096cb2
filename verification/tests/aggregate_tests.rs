use tracker::aggregate::{aggregate, GroupRow, Grouping};
use tracker::calendar::calendar_status;
use tracker::record::CompletedInterval;
use tracker::render::{day_row_line, interval_row_line, total_line, week_row_line};
use tracker::store::Store;

// 2021-01-04 to 2021-01-06 lie in ISO week 1 of 2021, 2021-01-11 and
// 2021-01-12 in ISO week 2.
const JAN_4: u64 = 1609718400;
const JAN_5: u64 = 1609804800;
const JAN_6: u64 = 1609891200;
const JAN_11: u64 = 1610323200;
const JAN_12: u64 = 1610409600;

fn interval(start: u64, duration: u64) -> CompletedInterval {
    CompletedInterval {
        project_code: "acme".to_string(),
        start_time: start,
        end_time: start + duration,
        duration,
        task: "design".to_string(),
    }
}

fn run_rows(rows: &[GroupRow]) -> Vec<(u32, u64)> {
    rows.iter()
        .map(|r| match r {
            GroupRow::Run { key, total } => (*key, *total),
            GroupRow::Interval { .. } => panic!("expected a run row"),
        })
        .collect()
}

#[test]
fn calendar_status_of_known_dates() {
    assert_eq!(calendar_status(JAN_4), (1, 1, 4));
    assert_eq!(calendar_status(JAN_11), (2, 1, 11));
    // 2020-12-31 is day 31 of month 12, in ISO week 53 of 2020.
    assert_eq!(calendar_status(1609372800), (53, 12, 31));
}

#[test]
fn flat_aggregation_filters_and_totals() {
    let log = vec![interval(JAN_4, 130), interval(JAN_5, 100), interval(JAN_6, 200)];
    let (rows, total) = aggregate(&log, Grouping::Flat, false);
    // The 100 second interval is under the threshold.
    assert_eq!(rows.len(), 2);
    assert_eq!(total, 330);
    match &rows[0] {
        GroupRow::Interval { project_code, task, start_time, duration } => {
            assert_eq!(project_code, "acme");
            assert_eq!(task, "design");
            assert_eq!(*start_time, JAN_4);
            assert_eq!(*duration, 130);
        },
        GroupRow::Run { .. } => panic!("flat aggregation yields interval rows"),
    }
}

#[test]
fn quash_keeps_short_intervals() {
    let log = vec![interval(JAN_4, 10), interval(JAN_5, 20)];
    let (rows, total) = aggregate(&log, Grouping::Flat, true);
    assert_eq!(rows.len(), 2);
    assert_eq!(total, 30);
}

#[test]
fn week_grouping_is_contiguous_runs_not_a_group_by() {
    // Weeks 1, 1, 2, 2, 1 in log order: the two week-1 runs stay apart.
    let log = vec![
        interval(JAN_4, 10),
        interval(JAN_5, 20),
        interval(JAN_11, 30),
        interval(JAN_12, 40),
        interval(JAN_6, 50),
    ];
    let (rows, total) = aggregate(&log, Grouping::Week, true);
    assert_eq!(run_rows(&rows), vec![(1, 30), (2, 70), (1, 50)]);
    assert_eq!(total, 150);
}

#[test]
fn week_grouping_of_empty_log_still_flushes_once() {
    let log: Vec<CompletedInterval> = vec![];
    let (rows, total) = aggregate(&log, Grouping::Week, false);
    assert_eq!(run_rows(&rows), vec![(0, 0)]);
    assert_eq!(total, 0);
}

#[test]
fn zero_total_run_is_not_flushed_mid_scan() {
    // A zero-duration run under quash leaves no row when the key changes.
    let log = vec![interval(JAN_4, 0), interval(JAN_11, 30)];
    let (rows, total) = aggregate(&log, Grouping::Week, true);
    assert_eq!(run_rows(&rows), vec![(2, 30)]);
    assert_eq!(total, 30);
}

#[test]
fn day_grouping_keys_on_day_of_month() {
    let log = vec![interval(JAN_4, 130), interval(JAN_4 + 3600, 200), interval(JAN_5, 300)];
    let (rows, total) = aggregate(&log, Grouping::Day, false);
    assert_eq!(run_rows(&rows), vec![(4, 330), (5, 300)]);
    assert_eq!(total, 630);
}

#[test]
fn print_hours() {
    let log = vec![interval(JAN_4, 130)];
    let (rows, total) = aggregate(&log, Grouping::Flat, false);
    match &rows[0] {
        GroupRow::Interval { project_code, task, start_time, duration } => {
            let line = interval_row_line(project_code, task, *start_time, *duration);
            assert!(line.contains("Project: acme"));
            assert!(line.contains("2021-01-04"));
        },
        GroupRow::Run { .. } => panic!("flat aggregation yields interval rows"),
    }
    let line = total_line(total);
    assert!(line.contains("Total"));
    assert_eq!(line, "Total is 0 hours 2 minutes.");
}

#[test]
fn print_weeks() {
    let log = vec![interval(JAN_4, 7200)];
    let (rows, _) = aggregate(&log, Grouping::Week, false);
    let pairs = run_rows(&rows);
    assert_eq!(pairs, vec![(1, 7200)]);
    let line = week_row_line(pairs[0].0, pairs[0].1);
    assert!(line.contains("Week"));
    assert_eq!(line, "Week 1 Hours 2 hours 0 minutes");
}

#[test]
fn print_days() {
    let log = vec![interval(JAN_5, 3660)];
    let (rows, _) = aggregate(&log, Grouping::Day, false);
    let pairs = run_rows(&rows);
    assert_eq!(pairs, vec![(5, 3660)]);
    let line = day_row_line(pairs[0].0, pairs[0].1);
    assert!(line.contains("Day"));
    assert_eq!(line, "Day 5 Hours 1 hours 1 minutes");
}

#[test]
fn stop_after_130_seconds_logs_and_totals_two_minutes() {
    let mut s = Store::new();
    s.start(JAN_4, "acme".to_string(), "design".to_string());
    s.stop(JAN_4 + 130, false);
    assert_eq!(s.log.len(), 1);
    let row = tracker::codec::encode_interval(&s.log[0]);
    assert_eq!(row, format!("acme,{},{},130,design\n", JAN_4, JAN_4 + 130));
    let (rows, total) = aggregate(&s.log, Grouping::Flat, false);
    assert_eq!(rows.len(), 1);
    match &rows[0] {
        GroupRow::Interval { project_code, task, start_time, duration } => {
            let line = interval_row_line(project_code, task, *start_time, *duration);
            assert!(line.contains("Project: acme"));
        },
        GroupRow::Run { .. } => panic!("flat aggregation yields interval rows"),
    }
    assert_eq!(total_line(total), "Total is 0 hours 2 minutes.");
}
