use ferrometer::config::{
    default_journald_labels, default_journald_metadata, JournaldSourceConfig,
};
use ferrometer::labels::{one_label, set_label, Labels};
use ferrometer::log::journald::{
    after_move, first_move, journal_error, read_saved_cursor, After, CursorFile, JournaldSource,
    Move,
};
use ferrometer::log::source::LogEntry;
use ferrometer::ordered::OrderedMap;
use ferrometer::time::{Duration, Instant, Timestamp};

fn config(batch_size: usize, batch_max_bytes: usize) -> JournaldSourceConfig {
    JournaldSourceConfig {
        batch_size,
        batch_max_bytes,
        batch_wait: Duration::from_secs(5),
        cursor_file: "/c".to_string(),
        runtime_only: false,
        labels: default_journald_labels(),
        static_labels: one_label("job", "ferrometer"),
        metadata: default_journald_metadata(),
    }
}

fn source(batch_size: usize, batch_max_bytes: usize) -> JournaldSource {
    let extra = one_label("instance", "h");
    JournaldSource::new("journal", &config(batch_size, batch_max_bytes), extra, None)
}

fn entry(message: &str) -> LogEntry {
    LogEntry {
        timestamp: Timestamp { nanos: 0 },
        message: message.to_string(),
        labels: OrderedMap::new(),
        metadata: OrderedMap::new(),
    }
}

fn at(secs: u64) -> Instant {
    Instant { nanos: secs * 1_000_000_000 }
}

fn messages(s: &mut JournaldSource) -> Vec<String> {
    s.peek_batch().entries.iter().map(|e| e.message.clone()).collect()
}

fn record(fields: &[(&str, &str)]) -> Labels {
    let mut l: Labels = OrderedMap::new();
    for (k, v) in fields {
        set_label(&mut l, k, v);
    }
    l
}

fn value(l: &Labels, name: &str) -> Option<String> {
    l.get(&name.to_string()).cloned()
}

#[test]
fn records_become_entries() {
    let s = source(10, 0);
    let r = record(&[
        ("MESSAGE", "hello"),
        ("__REALTIME_TIMESTAMP", "1700000000000001"),
        ("_SYSTEMD_UNIT", "a.service"),
        ("_PID", "42"),
        ("OTHER", "x"),
    ]);
    let e = s.read(&r, Timestamp { nanos: 1 });
    assert_eq!(e.message, "hello");
    assert_eq!(e.timestamp.nanos, 1_700_000_000_000_001_000);
    assert_eq!(value(&e.labels, "unit"), Some("a.service".to_string()));
    assert_eq!(value(&e.labels, "priority"), None);
    assert_eq!(value(&e.labels, "job"), Some("ferrometer".to_string()));
    assert_eq!(value(&e.labels, "instance"), Some("h".to_string()));
    assert_eq!(value(&e.metadata, "pid"), Some("42".to_string()));
    assert_eq!(e.metadata.len(), 1);
}

#[test]
fn records_without_message_or_time_have_defaults() {
    let s = source(10, 0);
    let e = s.read(&record(&[("__REALTIME_TIMESTAMP", "soon")]), Timestamp { nanos: 77 });
    assert_eq!(e.message, "");
    assert_eq!(e.timestamp.nanos, 77);
    assert_eq!(s.name(), "journal");
}

#[test]
fn static_labels_win_over_fields_and_fields_over_the_instance() {
    let mut c = config(10, 0);
    c.labels = record(&[("instance", "_HOSTNAME"), ("job", "_HOSTNAME"), ("m", "MESSAGE")]);
    let s = JournaldSource::new("j", &c, one_label("instance", "h"), None);
    let e = s.read(&record(&[("_HOSTNAME", "x"), ("MESSAGE", "hi")]), Timestamp { nanos: 0 });
    assert_eq!(value(&e.labels, "instance"), Some("x".to_string()));
    assert_eq!(value(&e.labels, "job"), Some("ferrometer".to_string()));
    assert_eq!(value(&e.labels, "m"), None);
}

#[test]
fn batches_close_at_their_size() {
    let mut s = source(2, 0);
    assert!(s.has_room());
    assert_eq!(s.deadline(), None);
    s.offer(entry("a"), "c1".to_string(), at(1));
    assert!(!s.is_ready(at(5)));
    assert_eq!(s.deadline().unwrap().nanos, 6_000_000_000);
    assert!(s.is_ready(at(6)));
    s.offer(entry("b"), "c2".to_string(), at(2));
    assert!(!s.has_room());
    assert!(s.is_ready(at(2)));
    assert_eq!(messages(&mut s), vec!["a", "b"]);
    assert_eq!(s.peek_batch().end_cursor, "c2");
    s.ack("c2".to_string());
    assert_eq!(s.last_acked(), &Some("c2".to_string()));
    assert!(!s.is_ready(at(100)));
    assert!(s.has_room());
}

#[test]
fn batches_close_before_they_are_too_large() {
    // Each entry counts for 17 bytes.
    let mut s = source(100, 40);
    s.offer(entry("a"), "c1".to_string(), at(0));
    s.offer(entry("b"), "c2".to_string(), at(0));
    s.offer(entry("c"), "c3".to_string(), at(1));
    assert!(!s.has_room());
    assert!(s.is_ready(at(1)));
    assert_eq!(messages(&mut s), vec!["a", "b"]);
    assert_eq!(s.peek_batch().end_cursor, "c2");
    s.ack("c2".to_string());
    assert_eq!(messages(&mut s), vec!["c"]);
    assert_eq!(s.peek_batch().end_cursor, "c3");
    assert_eq!(s.deadline().unwrap().nanos, 6_000_000_000);
}

#[test]
fn an_entry_that_is_too_large_on_its_own_is_handed_out() {
    let mut s = source(100, 10);
    let e = entry("a long message");
    assert!(s.can_count(&e));
    s.offer(e, "c1".to_string(), at(0));
    s.offer(entry("b"), "c2".to_string(), at(0));
    assert_eq!(messages(&mut s), vec!["a long message"]);
}

#[test]
fn a_batch_in_flight_only_grows_at_its_back() {
    let mut s = source(10, 0);
    s.offer(entry("a"), "c1".to_string(), at(0));
    assert_eq!(messages(&mut s), vec!["a"]);
    s.offer(entry("b"), "c2".to_string(), at(0));
    assert!(s.is_ready(at(0)));
    assert_eq!(messages(&mut s), vec!["a", "b"]);
}

#[test]
fn every_entry_is_handed_out_once_across_restarts() {
    let journal: Vec<(String, String)> =
        (0..20).map(|i| ("x".repeat(i % 7), format!("c{i}"))).collect();
    let mut seen = Vec::new();
    let mut acked: Option<String> = None;
    for _ in 0..40 {
        // A new source starts behind the last cursor that was acknowledged.
        let extra = one_label("instance", "h");
        let mut s = JournaldSource::new("j", &config(3, 60), extra, acked.clone());
        let mut at_entry = match s.last_acked() {
            Some(c) => journal.iter().position(|(_, d)| d == c).unwrap() + 1,
            None => 0,
        };
        for _ in 0..2 {
            while s.has_room() && at_entry < journal.len() {
                let (m, c) = &journal[at_entry];
                s.offer(entry(m), c.clone(), at(0));
                at_entry += 1;
            }
            let batch = s.peek_batch();
            if batch.entries.is_empty() {
                continue;
            }
            seen.extend(batch.entries.iter().map(|e| e.message.clone()));
            let cursor = batch.end_cursor.clone();
            s.ack(cursor.clone());
            acked = Some(cursor);
        }
    }
    let all: Vec<String> = journal.iter().map(|(m, _)| m.clone()).collect();
    assert_eq!(seen, all);
}

#[test]
fn reading_starts_behind_the_cursor_or_at_the_end() {
    assert!(matches!(first_move(&Some("c".to_string())), Move::Cursor(c) if c == "c"));
    assert!(matches!(first_move(&None), Move::Tail { visit_last: true }));
    let cursor = Move::Cursor("c".to_string());
    assert!(matches!(after_move(&cursor, true), After::Then(Move::Next)));
    assert!(matches!(
        after_move(&cursor, false),
        After::Then(Move::Tail { visit_last: false })
    ));
    assert!(matches!(after_move(&Move::Next, true), After::Ready));
    assert!(matches!(after_move(&Move::Next, false), After::Fail("next after seek")));
    let tail = Move::Tail { visit_last: true };
    assert!(matches!(after_move(&tail, true), After::Then(Move::Previous)));
    assert!(matches!(after_move(&tail, false), After::Fail("seek_tail")));
    assert!(matches!(after_move(&Move::Tail { visit_last: false }, true), After::Ready));
    assert!(matches!(after_move(&Move::Previous, true), After::Ready));
    assert!(matches!(
        after_move(&Move::Previous, false),
        After::Fail("previous after seek_tail")
    ));
    assert_eq!(journal_error("wait", "x").message(), "log source error: wait: x");
}

#[test]
fn the_saved_cursor_is_read() {
    let read = |f: CursorFile| read_saved_cursor("/c", &f);
    assert_eq!(read(CursorFile::Text(" c1\n".to_string())).unwrap(), Some("c1".to_string()));
    assert_eq!(read(CursorFile::Text("\n".to_string())).unwrap(), None);
    assert_eq!(read(CursorFile::Missing).unwrap(), None);
    assert_eq!(
        read(CursorFile::Unreadable("denied".to_string())).unwrap_err().message(),
        "failed to read /c: denied"
    );
}
