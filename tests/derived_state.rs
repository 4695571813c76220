use timetracker::entries::{
    append_entry, is_running, redescribe_at_time, remove_at_time, total_elapsed, EntryType,
    TimeEntry,
};
use timetracker::error::Error;

fn entry(timestamp: i64, kind: &str) -> TimeEntry {
    TimeEntry {
        timestamp,
        entry_type: EntryType::from_name(kind.to_string()),
        description: None,
    }
}

#[test]
fn running_after_start_then_end_is_false() {
    assert!(!is_running(&vec![entry(100, "start"), entry(200, "end")]));
}

#[test]
fn running_after_single_start_is_true() {
    assert!(is_running(&vec![entry(100, "start")]));
}

#[test]
fn running_on_no_entries_is_false() {
    assert!(!is_running(&vec![]));
}

#[test]
fn running_looks_at_latest_timestamp_not_last_position() {
    assert!(is_running(&vec![entry(300, "start"), entry(200, "end")]));
    assert!(!is_running(&vec![entry(200, "end"), entry(100, "start")]));
}

#[test]
fn running_ignores_unknown_latest_marker() {
    assert!(!is_running(&vec![entry(100, "start"), entry(200, "pause")]));
}

#[test]
fn total_sorts_before_pairing() {
    assert_eq!(total_elapsed(&vec![entry(200, "end"), entry(100, "start")]), 100);
}

#[test]
fn total_same_in_any_order() {
    let a = vec![entry(100, "start"), entry(150, "end"), entry(400, "start"), entry(460, "end")];
    let b = vec![entry(460, "end"), entry(100, "start"), entry(150, "end"), entry(400, "start")];
    assert_eq!(total_elapsed(&a), 110);
    assert_eq!(total_elapsed(&b), 110);
}

#[test]
fn total_ignores_trailing_open_start() {
    assert_eq!(
        total_elapsed(&vec![entry(100, "start"), entry(200, "end"), entry(300, "start")]),
        100
    );
}

#[test]
fn total_repeated_start_replaces_pending() {
    assert_eq!(
        total_elapsed(&vec![entry(100, "start"), entry(150, "start"), entry(200, "end")]),
        50
    );
}

#[test]
fn total_unmatched_end_counts_nothing() {
    assert_eq!(total_elapsed(&vec![entry(100, "end"), entry(200, "end")]), 0);
    assert_eq!(total_elapsed(&vec![]), 0);
}

#[test]
fn total_ignores_unknown_markers() {
    assert_eq!(
        total_elapsed(&vec![entry(100, "start"), entry(120, "pause"), entry(200, "end")]),
        100
    );
}

#[test]
fn total_of_widest_span() {
    assert_eq!(
        total_elapsed(&vec![entry(0, "start"), entry(i64::MAX, "end")]),
        i64::MAX
    );
}

#[test]
fn entry_type_names_round_trip() {
    assert_eq!(EntryType::from_name("start".to_string()).name(), "start");
    assert_eq!(EntryType::from_name("end".to_string()).name(), "end");
    match EntryType::from_name("pause".to_string()) {
        EntryType::Other(s) => assert_eq!(s, "pause"),
        other => panic!("unexpected {:?}", other),
    }
}

#[test]
fn remove_at_time_drops_matching_entries() {
    let v = remove_at_time(vec![entry(1, "start"), entry(2, "end"), entry(3, "start")], 2).unwrap();
    let stamps: Vec<i64> = v.iter().map(|e| e.timestamp).collect();
    assert_eq!(stamps, vec![1, 3]);
}

#[test]
fn remove_at_time_missing_is_not_found() {
    let r = remove_at_time(vec![entry(1, "start")], 5);
    assert_eq!(r.unwrap_err(), Error::NotFound);
}

#[test]
fn redescribe_changes_first_match_only() {
    let v = redescribe_at_time(
        vec![entry(1, "start"), entry(2, "end"), entry(2, "start")],
        2,
        Some("done".to_string()),
    )
    .unwrap();
    assert_eq!(v[1].description.as_deref(), Some("done"));
    assert_eq!(v[2].description, None);
    assert_eq!(v[0].description, None);
}

#[test]
fn redescribe_missing_is_not_found() {
    let r = redescribe_at_time(vec![], 2, None);
    assert_eq!(r.unwrap_err(), Error::NotFound);
}

#[test]
fn append_reports_first_entry() {
    let (v, first) = append_entry(vec![], entry(1, "start"));
    assert!(first);
    assert_eq!(v.len(), 1);
    let (v, first) = append_entry(v, entry(2, "end"));
    assert!(!first);
    assert_eq!(v[1].timestamp, 2);
}

#[test]
fn latest_start_picks_greatest_start() {
    let v = vec![entry(300, "start"), entry(350, "end"), entry(100, "start"), entry(400, "end")];
    assert_eq!(timetracker::entries::latest_start(&v), Some(300));
    assert_eq!(timetracker::entries::latest_start(&vec![entry(5, "end")]), None);
}

#[test]
fn recent_positions_newest_first() {
    let v = vec![entry(10, "start"), entry(30, "end"), entry(20, "start"), entry(30, "start")];
    assert_eq!(timetracker::entries::recent_positions(&v, 3), vec![1, 3, 2]);
    assert_eq!(timetracker::entries::recent_positions(&v, 10), vec![1, 3, 2, 0]);
    assert_eq!(timetracker::entries::recent_positions(&vec![], 5), Vec::<usize>::new());
}
