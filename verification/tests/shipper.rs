use ferrometer::error::{Error, Result};
use ferrometer::log::shipper::{
    approx_size, outcome, truncate, Outcome, Settled, Shipper, Step, Verdict,
};
use ferrometer::log::source::{Batch, LogEntry};
use ferrometer::ordered::OrderedMap;
use ferrometer::time::{Duration, Timestamp};

fn entry(msg: &str) -> LogEntry {
    LogEntry {
        timestamp: Timestamp { nanos: 0 },
        message: msg.to_string(),
        labels: OrderedMap::new(),
        metadata: OrderedMap::new(),
    }
}

fn batch(msgs: &[&str], cursor: &str) -> Batch {
    let mut b = Batch::default();
    for m in msgs {
        b.push(entry(m), cursor.to_string());
    }
    b
}

/// Rejects any request with more than `max_entries` entries, or any single
/// entry whose message is longer than `max_line`, as too large; rejects any
/// request containing a message starting with "bad" as invalid.
fn answer(entries: &[LogEntry], max_entries: usize, max_line: usize) -> Result<()> {
    if entries.len() > max_entries || entries.iter().any(|e| e.message.len() > max_line) {
        return Err(Error::SinkPayloadTooLarge("HTTP 413".into()));
    }
    if entries.iter().any(|e| e.message.starts_with("bad")) {
        return Err(Error::SinkRejected("HTTP 400".into()));
    }
    Ok(())
}

/// Ships batches one after the other. Returns the messages of the requests that
/// succeeded, the cursors that were acknowledged, and the number of requests.
fn run(
    batches: Vec<Batch>,
    max_entries: usize,
    max_line: usize,
) -> (Vec<Vec<String>>, Vec<String>, usize) {
    let mut shipper = Shipper::new(Duration::from_millis(1), Duration::from_millis(1));
    let mut sends = Vec::new();
    let mut acks = Vec::new();
    let mut attempts = 0;
    for b in &batches {
        loop {
            let total = b.entries.len();
            match shipper.plan(total) {
                Step::Ack => {
                    acks.push(b.end_cursor.clone());
                    break;
                }
                Step::Send { from, count } => {
                    attempts += 1;
                    let slice = &b.entries[from..from + count];
                    let r = answer(slice, max_entries, max_line);
                    if r.is_ok() {
                        sends.push(slice.iter().map(|e| e.message.clone()).collect());
                    }
                    if shipper.settle(outcome(&r), total).ack {
                        acks.push(b.end_cursor.clone());
                        break;
                    }
                }
            }
        }
    }
    (sends, acks, attempts)
}

#[test]
fn happy_path_sends_whole_batch_then_acks() {
    let (sends, acks, attempts) =
        run(vec![batch(&["a", "b", "c"], "c1"), batch(&["d"], "c2")], 100, 100);
    assert_eq!(sends, vec![vec!["a", "b", "c"], vec!["d"]]);
    assert_eq!(acks, vec!["c1", "c2"]);
    assert_eq!(attempts, 2);
}

#[test]
fn oversized_batch_is_split_and_acked_once_fully_delivered() {
    let msgs = ["a", "b", "c", "d", "e", "f", "g"];
    let (sends, acks, _) = run(vec![batch(&msgs, "c1")], 2, 100);
    // 7 → rejected; 3 → rejected; 1,1,1,1,1,1,1 delivered in order.
    let flat: Vec<String> = sends.iter().flatten().cloned().collect();
    assert_eq!(flat, msgs);
    assert!(sends.iter().all(|s| s.len() <= 2));
    assert_eq!(acks, vec!["c1"]);
}

#[test]
fn chunk_size_persists_within_batch_and_resets_on_ack() {
    let b1: Vec<&str> = (0..8).map(|_| "x").collect();
    let (sends, acks, attempts) = run(vec![batch(&b1, "c1"), batch(&["y"], "c2")], 4, 100);
    // Batch 1: 8 rejected, then 4 + 4 delivered (chunk stays at 4).
    // Batch 2: single entry sent in one request (chunk reset).
    assert_eq!(sends.len(), 3);
    assert_eq!(sends[0].len(), 4);
    assert_eq!(sends[1].len(), 4);
    assert_eq!(sends[2], vec!["y"]);
    assert_eq!(acks, vec!["c1", "c2"]);
    assert_eq!(attempts, 4);
}

#[test]
fn single_oversized_entry_is_dropped_and_rest_delivered() {
    let (sends, acks, _) = run(vec![batch(&["a", "toolong", "b"], "c1")], 100, 3);
    let flat: Vec<String> = sends.iter().flatten().cloned().collect();
    assert_eq!(flat, vec!["a", "b"]);
    assert_eq!(acks, vec!["c1"]);
}

#[test]
fn lone_oversized_entry_batch_is_dropped_and_acked() {
    let (sends, acks, _) = run(vec![batch(&["toolong"], "c1")], 100, 3);
    assert!(sends.is_empty());
    assert_eq!(acks, vec!["c1"]);
}

#[test]
fn rejected_batch_is_dropped_and_acked() {
    let (sends, acks, attempts) =
        run(vec![batch(&["a", "bad", "b"], "c1"), batch(&["c"], "c2")], 100, 100);
    // The 400 batch is acked without retry or split; shipping continues.
    assert_eq!(sends, vec![vec!["c"]]);
    assert_eq!(acks, vec!["c1", "c2"]);
    assert_eq!(attempts, 2);
}

#[test]
fn truncate_respects_char_boundaries() {
    assert_eq!(truncate("héllo", 2), "hé…");
    assert_eq!(truncate("hi", 5), "hi");
}

#[test]
fn an_empty_batch_is_acked() {
    let mut s = Shipper::new(Duration::from_secs(1), Duration::from_secs(4));
    assert_eq!(s.plan(0), Step::Ack);
}

#[test]
fn failures_pause_longer_and_longer_and_a_success_ends_it() {
    let mut s = Shipper::new(Duration::from_secs(1), Duration::from_secs(3));
    let pause = |s: &mut Shipper| match s.settle(Outcome::Failed, 2) {
        Settled { verdict: Verdict::Retry { pause }, ack: false } => pause.as_secs(),
        _ => panic!("no pause"),
    };
    assert_eq!(pause(&mut s), 1);
    assert_eq!(pause(&mut s), 2);
    assert_eq!(pause(&mut s), 3);
    assert_eq!(pause(&mut s), 3);
    assert_eq!(s.plan(2), Step::Send { from: 0, count: 2 });
    assert!(s.settle(Outcome::Delivered, 2).ack);
    assert_eq!(pause(&mut s), 1);
}

#[test]
fn every_entry_is_settled_once_through_failures_and_top_ups() {
    let mut s = Shipper::new(Duration::from_secs(1), Duration::from_secs(3));
    let trace = [
        (3, Outcome::Failed),
        (4, Outcome::TooLarge),
        (4, Outcome::Delivered),
        (5, Outcome::Failed),
        (6, Outcome::TooLarge),
        (6, Outcome::TooLarge),
        (6, Outcome::Failed),
        (6, Outcome::Rejected),
        (7, Outcome::Delivered),
        (7, Outcome::Delivered),
        (7, Outcome::Delivered),
    ];
    let mut settled = Vec::new();
    for (k, (total, o)) in trace.iter().enumerate() {
        let Step::Send { from, count } = s.plan(*total) else { panic!("nothing to send") };
        let r = s.settle(*o, *total);
        match r.verdict {
            Verdict::Shipped | Verdict::Refused => settled.extend(from..from + count),
            Verdict::Dropped { entry } => settled.push(entry),
            Verdict::Split { .. } | Verdict::Retry { .. } => {}
        }
        assert_eq!(settled, (0..settled.len()).collect::<Vec<usize>>());
        assert_eq!(r.ack, k + 1 == trace.len());
    }
    assert_eq!(settled, vec![0, 1, 2, 3, 4, 5, 6]);
    assert_eq!(s.plan(2), Step::Send { from: 0, count: 2 });
}

#[test]
fn verdicts_tell_what_became_of_a_request() {
    let mut s = Shipper::new(Duration::from_secs(1), Duration::from_secs(3));
    assert_eq!(s.settle(Outcome::TooLarge, 3).verdict, Verdict::Split { chunk: 1 });
    assert_eq!(s.settle(Outcome::Delivered, 3).verdict, Verdict::Shipped);
    assert_eq!(s.settle(Outcome::TooLarge, 3).verdict, Verdict::Dropped { entry: 1 });
    let last = s.settle(Outcome::Rejected, 3);
    assert_eq!(last, Settled { verdict: Verdict::Refused, ack: true });
}

#[test]
fn any_other_error_is_a_failure() {
    assert_eq!(outcome(&Err(Error::Sink("x".into()))), Outcome::Failed);
    assert_eq!(outcome(&Err(Error::Io("x".into()))), Outcome::Failed);
    assert_eq!(outcome(&Ok(())), Outcome::Delivered);
}

#[test]
fn sizes_count_bytes_and_overheads() {
    let mut e = entry("hé");
    e.labels.insert("a".to_string(), "bc".to_string());
    e.metadata.insert("pid".to_string(), "1".to_string());
    assert_eq!(e.approx_size(), 16 + 3 + (1 + 2 + 4) + (3 + 1 + 4));
    assert_eq!(e.checked_size(), Some(34));
    assert_eq!(approx_size(&[entry("a"), entry("b")]), 34);
    let b = batch(&["a", "b"], "c9");
    assert_eq!(b.approx_bytes, 34);
    assert_eq!(b.end_cursor, "c9");
}
