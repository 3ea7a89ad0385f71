use std::sync::Arc;

use ferrometer::config::{
    AuthConfig, CollectorConfig, PrometheusCollectorConfig, TlsConfig,
};
use ferrometer::ordered::OrderedMap;
use ferrometer::pipeline::{collector_schedule_params, Next, Scheduler};
use ferrometer::signal::{Metric, MetricType, Value};
use ferrometer::time::{Duration, Instant, Timestamp};

fn at(millis: u64) -> Instant {
    Instant { nanos: millis * 1_000_000 }
}

fn metrics(n: u64) -> Option<Vec<Metric>> {
    Some(
        (0..n)
            .map(|i| Metric {
                name: Arc::new("m".to_string()),
                labels: Arc::new(OrderedMap::new()),
                value: Value::Whole(i),
                timestamp: Timestamp { nanos: 0 },
                metric_type: MetricType::Gauge,
            })
            .collect(),
    )
}

fn scheduler(intervals: &[(&str, u64)]) -> Scheduler {
    let list = intervals.iter().map(|(n, s)| (n.to_string(), Duration::from_secs(*s))).collect();
    Scheduler::new(list, at(0))
}

fn waits(n: Next) -> (Option<u128>, Option<u128>) {
    match n {
        Next::Wait { soft, due } => {
            (soft.map(|d| d.nanos / 1_000_000), due.map(|d| d.nanos / 1_000_000))
        }
        _ => panic!("no wait"),
    }
}

#[test]
fn collectors_start_when_they_are_due_and_idle() {
    let mut s = scheduler(&[("a", 10), ("b", 15)]);
    let (starts, next) = s.tick(at(0));
    assert_eq!(starts, vec![0, 1]);
    assert_eq!(waits(next), (None, None));
    s.handle_result("a", at(0), None);
    let (starts, next) = s.tick(at(1));
    assert!(starts.is_empty());
    assert_eq!(waits(next), (None, Some(10_000)));
    let (starts, _) = s.tick(at(10_000));
    assert_eq!(starts, vec![0]);
    let (starts, _) = s.tick(at(20_000));
    assert!(starts.is_empty());
}

#[test]
fn missed_runs_are_passed_over_in_step() {
    let mut s = scheduler(&[("a", 10)]);
    s.tick(at(0));
    s.handle_result("a", at(0), None);
    assert_eq!(s.start_due(at(35_500)), vec![0]);
    s.handle_result("a", at(35_500), None);
    assert!(s.start_due(at(39_999)).is_empty());
    assert_eq!(s.start_due(at(40_000)), vec![0]);
}

#[test]
fn results_wait_for_slower_collectors_but_not_long() {
    let mut s = scheduler(&[("a", 10), ("b", 10)]);
    s.tick(at(0));
    s.handle_result("a", at(0), metrics(2));
    let (_, next) = s.tick(at(500));
    assert_eq!(waits(next), (Some(1000), Some(10_000)));
    let (_, next) = s.tick(at(1000));
    let Next::Emit(batch) = next else { panic!("no batch") };
    assert_eq!(batch.len(), 2);
    let (_, next) = s.tick(at(1000));
    assert_eq!(waits(next), (None, Some(10_000)));
}

#[test]
fn a_batch_holds_what_every_collector_found() {
    let mut s = scheduler(&[("a", 10), ("b", 10)]);
    s.tick(at(0));
    s.handle_result("b", at(0), metrics(1));
    s.handle_result("a", at(0), metrics(2));
    let Next::Emit(batch) = s.tick(at(1)).1 else { panic!("no batch") };
    let values: Vec<Value> = batch.iter().map(|m| m.value).collect();
    assert_eq!(values, vec![Value::Whole(0), Value::Whole(0), Value::Whole(1)]);
}

#[test]
fn empty_results_are_not_submitted() {
    let mut s = scheduler(&[("a", 10)]);
    s.tick(at(0));
    s.handle_result("a", at(0), metrics(0));
    assert_eq!(waits(s.tick(at(1)).1), (None, Some(10_000)));
    s.handle_result("nobody", at(0), metrics(1));
    assert!(matches!(s.tick(at(1)).1, Next::Emit(_)));
}

#[test]
fn a_scheduler_without_collectors_stops() {
    let mut s = scheduler(&[]);
    assert!(matches!(s.tick(at(0)).1, Next::Stop));
}

#[test]
fn a_shutdown_submits_what_there_is() {
    let mut s = scheduler(&[("a", 10), ("b", 10)]);
    s.tick(at(0));
    assert!(s.shutdown().is_none());
    s.handle_result("a", at(0), metrics(3));
    assert_eq!(s.shutdown().unwrap().len(), 3);
    assert!(s.shutdown().is_none());
}

#[test]
fn a_run_submits_everything_once_and_in_order() {
    let mut s = scheduler(&[("a", 10), ("b", 10)]);
    let mut next_value = 0;
    let mut found = |n: u64| {
        let mut m = metrics(n).unwrap();
        for x in &mut m {
            x.value = Value::Whole(next_value);
            next_value += 1;
        }
        Some(m)
    };
    let mut out: Vec<Value> = Vec::new();
    let mut submit = |m: Vec<Metric>| out.extend(m.iter().map(|x| x.value));
    for round in 0..3u64 {
        let start = round * 10_000;
        s.tick(at(start));
        s.handle_result("a", at(start), found(2));
        if let Next::Emit(m) = s.tick(at(start + 1_000)).1 {
            submit(m);
        }
        s.handle_result("b", at(start), if round == 1 { None } else { found(1) });
        if round == 0 {
            if let Next::Emit(m) = s.tick(at(start + 2_000)).1 {
                submit(m);
            }
        }
    }
    submit(s.shutdown().unwrap());
    assert!(s.shutdown().is_none());
    assert_eq!(out, (0..8).map(Value::Whole).collect::<Vec<Value>>());
}

#[test]
fn schedules_come_from_the_configuration() {
    let c = CollectorConfig::Prometheus(PrometheusCollectorConfig {
        url: "u".to_string(),
        interval: Duration::from_secs(7),
        scrape_timeout: Duration::from_secs(1),
        max_runtime: Duration::from_secs(9),
        auth: AuthConfig::default(),
        tls: TlsConfig::default(),
        static_labels: OrderedMap::new(),
    });
    let (interval, max_runtime) = collector_schedule_params(&c);
    assert_eq!((interval.as_secs(), max_runtime.as_secs()), (7, 9));
}
