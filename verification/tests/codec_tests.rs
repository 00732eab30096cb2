use tracker::codec::{encode_interval, encode_log, encode_timer, header, parse_interval,
    parse_timer, scan_log, scan_timer, split_text};
use tracker::record::{ActiveTimer, CompletedInterval, ParseError};

fn interval(p: &str, start: u64, end: u64, task: &str) -> CompletedInterval {
    CompletedInterval {
        project_code: p.to_string(),
        start_time: start,
        end_time: end,
        duration: end - start,
        task: task.to_string(),
    }
}

#[test]
fn split_cuts_at_every_separator() {
    let parts = split_text("a,bb,,c", ',');
    assert_eq!(parts, vec!["a", "bb", "", "c"]);
    assert_eq!(split_text("", ','), vec![""]);
    assert_eq!(split_text(",", ','), vec!["", ""]);
}

#[test]
fn interval_encodes_to_one_line() {
    let c = interval("acme", 1000, 1130, "design");
    assert_eq!(encode_interval(&c), "acme,1000,1130,130,design\n");
    let big = interval("p", 0, u64::MAX, "t");
    assert_eq!(
        encode_interval(&big),
        format!("p,0,{},{},t\n", u64::MAX, u64::MAX)
    );
}

#[test]
fn empty_log_encodes_to_its_header_alone() {
    let log: Vec<CompletedInterval> = vec![];
    let text = encode_log(&log);
    assert_eq!(text, format!("{}\n", header()));
    assert_eq!(scan_log(&text).unwrap().len(), 0);
}

#[test]
fn timer_encodes_to_one_line() {
    let t = ActiveTimer {
        start_time: 1000,
        project_code: "acme".to_string(),
        task: "design".to_string(),
    };
    assert_eq!(encode_timer(&t), "1000,acme,design\n");
}

#[test]
fn interval_line_parses_back() {
    let r = parse_interval("acme,1000,1130,130,design").unwrap();
    assert_eq!(r.project_code, "acme");
    assert_eq!(r.start_time, 1000);
    assert_eq!(r.end_time, 1130);
    assert_eq!(r.duration, 130);
    assert_eq!(r.task, "design");
}

#[test]
fn interval_parse_rejects_malformed_rows() {
    // Wrong field count.
    assert!(matches!(parse_interval("acme,1,2,3"), Err(ParseError::CorruptRecord)));
    assert!(matches!(parse_interval("acme,1,2,3,t,extra"), Err(ParseError::CorruptRecord)));
    // A numeric field that is not a plain digit string.
    assert!(matches!(parse_interval("acme,x1,2,3,t"), Err(ParseError::CorruptRecord)));
    assert!(matches!(parse_interval("acme,1,-2,3,t"), Err(ParseError::CorruptRecord)));
    assert!(matches!(parse_interval("acme,1,2,,t"), Err(ParseError::CorruptRecord)));
    // A value out of u64 range.
    assert!(matches!(
        parse_interval("acme,1,2,99999999999999999999,t"),
        Err(ParseError::CorruptRecord)
    ));
    // The largest value still fits.
    let r = parse_interval("acme,1,2,18446744073709551615,t").unwrap();
    assert_eq!(r.duration, u64::MAX);
}

#[test]
fn timer_line_parses_back() {
    let t = parse_timer("1000,acme,design").unwrap();
    assert_eq!(t.start_time, 1000);
    assert_eq!(t.project_code, "acme");
    assert_eq!(t.task, "design");
    assert!(matches!(parse_timer("x,acme,design"), Err(ParseError::CorruptRecord)));
    assert!(matches!(parse_timer("1000,acme"), Err(ParseError::CorruptRecord)));
}

#[test]
fn timer_store_scans_to_its_single_record() {
    let t = ActiveTimer {
        start_time: 42,
        project_code: "acme".to_string(),
        task: "design".to_string(),
    };
    let text = encode_timer(&t);
    let back = scan_timer(&text).unwrap();
    assert_eq!(back.start_time, 42);
    assert_eq!(back.project_code, "acme");
    assert_eq!(back.task, "design");
    // Two records in the single-record store are corrupt.
    assert!(matches!(scan_timer("1,a,b\n2,c,d\n"), Err(ParseError::CorruptRecord)));
    assert!(matches!(scan_timer(""), Err(ParseError::CorruptRecord)));
}

#[test]
fn log_round_trips_through_its_text() {
    let log = vec![
        interval("acme", 1000, 1130, "design"),
        interval("beta", 2000, 2300, "docs"),
        interval("acme", 5000, 5121, ""),
    ];
    let text = encode_log(&log);
    assert!(text.starts_with(header()));
    let back = scan_log(&text).unwrap();
    assert_eq!(back.len(), 3);
    for (a, b) in log.iter().zip(back.iter()) {
        assert_eq!(a.project_code, b.project_code);
        assert_eq!(a.start_time, b.start_time);
        assert_eq!(a.end_time, b.end_time);
        assert_eq!(a.duration, b.duration);
        assert_eq!(a.task, b.task);
    }
}

#[test]
fn scan_skips_header_and_empty_lines() {
    let text = "project_code,start_time,end_time,duration,task\n\nacme,1,2,1,t\n\n";
    let rows = scan_log(text).unwrap();
    assert_eq!(rows.len(), 1);
    assert_eq!(rows[0].project_code, "acme");
}

#[test]
fn scan_of_empty_text_is_empty() {
    assert_eq!(scan_log("").unwrap().len(), 0);
    // A store holding only its header has no data rows.
    let mut only_header = header().to_string();
    only_header.push('\n');
    assert_eq!(scan_log(&only_header).unwrap().len(), 0);
}

#[test]
fn scan_stops_at_a_corrupt_row() {
    let text = "project_code,start_time,end_time,duration,task\nacme,1,2,1,t\nbad row\n";
    assert!(matches!(scan_log(text), Err(ParseError::CorruptRecord)));
}
