use p25_httpd::event_log::{get_event_log, EventLog, LogCategory};
use p25_httpd::monitor::MonitorList;
use serde_json::Value;

fn log_of(n: u64, capacity: usize) -> EventLog {
    let mut log = EventLog::new(capacity);
    for i in 1..=n {
        let category = if i % 2 == 0 { LogCategory::Grant } else { LogCategory::Traffic };
        log.push(category, format!("entry {i}"), Value::from(i), 1000 + i);
    }
    log
}

#[test]
fn categories_have_names() {
    assert_eq!(LogCategory::Grant.as_str(), "grant");
    assert_eq!(LogCategory::Traffic.as_str(), "traffic");
    assert_eq!(LogCategory::Imbe.as_str(), "imbe");
    assert_eq!(LogCategory::Vocoder.as_str(), "vocoder");
    assert_eq!(LogCategory::System.as_str(), "system");
}

#[test]
fn log_numbers_from_one() {
    let log = log_of(1, 4);
    assert_eq!(log.last_seq(), 1);
    let entry = &log.recent_since(0, 10)[0];
    assert_eq!(entry.seq, 1);
    assert_eq!(entry.timestamp_ms, 1001);
    assert_eq!(entry.category, "traffic");
    assert_eq!(entry.message, "entry 1");
    assert_eq!(entry.fields, Value::from(1));
    assert_eq!(EventLog::new(4).last_seq(), 0);
}

#[test]
fn log_drops_the_oldest() {
    let log = log_of(6, 4);
    assert_eq!(log.len(), 4);
    assert_eq!(log.last_seq(), 6);
    let seqs: Vec<u64> = log.recent_since(0, 10).iter().map(|e| e.seq).collect();
    assert_eq!(seqs, vec![3, 4, 5, 6]);
}

#[test]
fn log_tails_in_order() {
    let log = log_of(6, 10);
    let seqs: Vec<u64> = log.recent_since(2, 3).iter().map(|e| e.seq).collect();
    assert_eq!(seqs, vec![3, 4, 5]);
    assert!(log.recent_since(6, 3).is_empty());
    assert!(log.recent_since(0, 0).is_empty());
}

#[test]
fn log_keeps_the_fields_it_was_given() {
    let mut log = EventLog::new(2);
    let fields = Value::Object([("tg".to_string(), Value::from(300))].into_iter().collect());
    log.push(LogCategory::System, "a".to_string(), fields.clone(), 0);
    assert_eq!(log.recent_since(0, 1)[0].fields, fields);
}

#[test]
fn log_requests_are_read() {
    let log = log_of(6, 10);
    let all = get_event_log(&log, None, None, None);
    assert_eq!(all.last_seq, 6);
    assert_eq!(all.entries.len(), 6);
    let some = get_event_log(&log, Some("2"), Some("3"), Some("grant"));
    let seqs: Vec<u64> = some.entries.iter().map(|e| e.seq).collect();
    assert_eq!(seqs, vec![4]);
    let odd = get_event_log(&log, Some("x"), Some("y"), Some("none"));
    assert!(odd.entries.is_empty());
    assert_eq!(get_event_log(&log, None, Some("99999"), None).entries.len(), 6);
}

#[test]
fn monitor_list_keeps_order_and_no_doubles() {
    let mut list = MonitorList::default();
    assert!(list.is_empty());
    list.set(vec![300, 402, 300, 7]);
    assert_eq!(list.list(), &[300, 402, 7]);
    list.add(402);
    list.add(9);
    assert_eq!(list.list(), &[300, 402, 7, 9]);
    list.remove(402);
    list.remove(402);
    assert_eq!(list.list(), &[300, 7, 9]);
    assert!(list.contains(7));
    assert!(!list.contains(402));
    assert_eq!(list.priority_of(9), 2);
    assert_eq!(list.priority_of(402), usize::MAX);
    assert!(!list.is_empty());
}

#[test]
fn removing_takes_back_an_addition() {
    let mut list = MonitorList::new();
    list.set(vec![5, 6]);
    list.add(7);
    list.remove(7);
    assert_eq!(list.list(), &[5, 6]);
}
