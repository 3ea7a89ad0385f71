use std::io::Read;
use std::sync::Arc;

use ferrometer::config::{AuthConfig, Compression, OtlphttpForwarderConfig, TlsConfig};
use ferrometer::forwarder::buffer::Buffer;
use ferrometer::forwarder::otlp::{kv, labels_to_attributes, metrics_to_otlp, system_time_to_nanos};
use ferrometer::forwarder::otlphttp::{
    check_response, compressed_body, encode_body, GzipFault, OtlphttpForwarder, Step,
};
use ferrometer::http::Response;
use ferrometer::labels::{one_label, set_label, Labels};
use ferrometer::ordered::OrderedMap;
use ferrometer::signal::{Metric, MetricType, Value};
use ferrometer::time::{Duration, Instant, Timestamp};

fn metric(name: &str, n: u64, labels: Labels) -> Metric {
    Metric {
        name: Arc::new(name.to_string()),
        labels: Arc::new(labels),
        value: Value::Whole(n),
        timestamp: Timestamp { nanos: 5 },
        metric_type: MetricType::Gauge,
    }
}

fn batch(n: usize) -> Vec<Metric> {
    (0..n).map(|i| metric("m", i as u64, OrderedMap::new())).collect()
}

fn config() -> OtlphttpForwarderConfig {
    OtlphttpForwarderConfig {
        endpoint: "http://m.example.com:8428/opentelemetry/".to_string(),
        auth: AuthConfig::default(),
        tls: TlsConfig::default(),
        compression: Compression::Gzip,
        timeout: Duration::from_secs(30),
        buffer_max_metrics: 10,
        request_max_metrics: 4,
        backoff_initial: Duration::from_secs(1),
        backoff_max: Duration::from_secs(3),
        resource_attributes: one_label("service.version", "0.5.0"),
    }
}

fn at(secs: u64) -> Instant {
    Instant { nanos: secs * 1_000_000_000 }
}

fn sizes(popped: &[Vec<Metric>]) -> Vec<usize> {
    popped.iter().map(|b| b.len()).collect()
}

#[test]
fn the_buffer_drops_its_oldest_batches() {
    let mut b = Buffer::new(10, 100);
    assert!(b.is_empty());
    b.submit(batch(4));
    b.submit(Vec::new());
    b.submit(batch(5));
    b.submit(batch(3));
    assert_eq!(sizes(&b.pop_for_send()), vec![5, 3]);
    b.submit(batch(11));
    assert!(b.is_empty());
}

#[test]
fn requests_take_what_fits_and_at_least_one_batch() {
    let mut b = Buffer::new(100, 4);
    for n in [7, 1, 2, 2, 4] {
        b.submit(batch(n));
    }
    assert_eq!(sizes(&b.pop_for_send()), vec![7]);
    assert_eq!(sizes(&b.pop_for_send()), vec![1, 2]);
    assert_eq!(sizes(&b.pop_for_send()), vec![2]);
    assert_eq!(sizes(&b.pop_for_send()), vec![4]);
    assert!(b.pop_for_send().is_empty());
}

#[test]
fn what_was_not_sent_goes_back_to_the_front() {
    let mut b = Buffer::new(10, 5);
    for n in [2, 3, 4] {
        b.submit(batch(n));
    }
    let popped = b.pop_for_send();
    assert_eq!(sizes(&popped), vec![2, 3]);
    b.requeue(popped);
    assert_eq!(sizes(&b.pop_for_send()), vec![2, 3]);
    let mut c = Buffer::new(10, 5);
    c.submit(batch(8));
    c.requeue(vec![batch(2), batch(1)]);
    assert_eq!(sizes(&c.pop_for_send()), vec![1]);
}

#[test]
fn a_request_groups_metrics_by_name() {
    let mut first = one_label("instance", "h1");
    set_label(&mut first, "cpu", "0");
    let mut b = metric("b", 2, one_label("cpu", "1"));
    b.metric_type = MetricType::Counter;
    let m = vec![metric("z", 1, first), b, metric("b", 3, OrderedMap::new())];
    let r = metrics_to_otlp(&m, &one_label("service.version", "0.5.0"));
    assert_eq!(r.resource.get(&"service.version".to_string()), Some(&"0.5.0".to_string()));
    assert_eq!(r.resource.len(), 1);
    assert_eq!(r.metrics.len(), 2);
    assert_eq!(r.metrics[0].name, "b");
    assert_eq!(r.metrics[0].metric_type, MetricType::Counter);
    assert_eq!(r.metrics[0].data_points.len(), 2);
    assert_eq!(r.metrics[0].data_points[1].value, Value::Whole(3));
    assert_eq!(r.metrics[1].name, "z");
    let p = &r.metrics[1].data_points[0];
    assert_eq!(p.time_unix_nano, 5);
    assert_eq!(p.attributes.len(), 2);
    assert_eq!((p.attributes[0].key.as_str(), p.attributes[0].value.as_str()), ("cpu", "0"));
    assert_eq!((p.attributes[1].key.as_str(), p.attributes[1].value.as_str()), ("instance", "h1"));
}

#[test]
fn the_resource_has_what_is_configured() {
    let r = metrics_to_otlp(&vec![], &one_label("service.name", "agent"));
    assert_eq!(r.resource.get(&"service.name".to_string()), Some(&"agent".to_string()));
    let r = metrics_to_otlp(&batch(1), &OrderedMap::new());
    assert_eq!(r.resource.len(), 0);
    let pair = kv("a", "b");
    assert_eq!((pair.key.as_str(), pair.value.as_str()), ("a", "b"));
    let a = labels_to_attributes(&one_label("instance", "x"));
    assert_eq!(a.len(), 1);
    assert_eq!((a[0].key.as_str(), a[0].value.as_str()), ("instance", "x"));
}

#[test]
fn times_are_sent_in_64_bits() {
    assert_eq!(system_time_to_nanos(Timestamp { nanos: -1 }), 0);
    assert_eq!(system_time_to_nanos(Timestamp { nanos: 1_700_000_000 }), 1_700_000_000);
    assert_eq!(system_time_to_nanos(Timestamp { nanos: (1 << 64) + 3 }), 3);
}

#[test]
fn bodies_are_compressed() {
    let data = vec![7u8; 5000];
    let (body, gzip) = encode_body(data.clone(), Compression::Gzip).unwrap();
    assert!(gzip);
    assert!(body.len() < 200);
    let mut back = Vec::new();
    flate2::read::GzDecoder::new(&body[..]).read_to_end(&mut back).unwrap();
    assert_eq!(back, data);
    assert_eq!(encode_body(data.clone(), Compression::Gzip).unwrap().0, body);
    assert_eq!(encode_body(data.clone(), Compression::Plain).unwrap(), (data, false));
}

#[test]
fn failures_to_compress_are_worded() {
    let e = |f: GzipFault| compressed_body(Err(f)).unwrap_err().message();
    assert_eq!(
        e(GzipFault::Write("full".to_string())),
        "forwarder error: gzip compression failed: full"
    );
    assert_eq!(
        e(GzipFault::Finish("full".to_string())),
        "forwarder error: gzip finalize failed: full"
    );
    assert_eq!(compressed_body(Ok(vec![1])).unwrap(), (vec![1], true));
}

#[test]
fn the_forwarder_sends_pauses_and_recovers() {
    let mut f = OtlphttpForwarder::new("vm", &config(), Some("Bearer t".to_string()));
    assert_eq!(f.name(), "vm");
    assert_eq!(f.endpoint(), "http://m.example.com:8428/opentelemetry/v1/metrics");
    assert!(matches!(f.step(at(0)), Step::Idle));
    f.submit(batch(3));
    f.submit(batch(3));
    let Step::Send(popped) = f.step(at(0)) else { panic!("nothing sent") };
    assert_eq!(sizes(&popped), vec![3]);
    assert_eq!(f.settle(popped, false, at(10)).unwrap().as_secs(), 1);
    let Step::Pause(d) = f.step(at(10)) else { panic!("no pause") };
    assert_eq!(d.nanos, 11_000_000_000);
    let Step::Send(popped) = f.step(at(11)) else { panic!("nothing sent") };
    assert_eq!(f.settle(popped, false, at(11)).unwrap().as_secs(), 2);
    let Step::Send(popped) = f.step(at(13)) else { panic!("nothing sent") };
    assert_eq!(f.settle(popped, true, at(13)), None);
    let Step::Send(popped) = f.step(at(13)) else { panic!("nothing sent") };
    assert_eq!(sizes(&popped), vec![3]);
    assert_eq!(f.settle(popped, true, at(13)), None);
    assert!(matches!(f.step(at(13)), Step::Idle));
}

#[test]
fn a_shutdown_flushes_once_even_in_a_pause() {
    let mut f = OtlphttpForwarder::new("vm", &config(), None);
    f.submit(batch(1));
    let Step::Send(popped) = f.step(at(0)) else { panic!("nothing sent") };
    f.settle(popped, false, at(0));
    f.shutdown();
    let Step::Flush(popped) = f.step(at(0)) else { panic!("no flush") };
    assert_eq!(sizes(&popped), vec![1]);
}

#[test]
fn the_forwarder_builds_requests() {
    let f = OtlphttpForwarder::new("vm", &config(), Some("Bearer t".to_string()));
    let r = f.request(&vec![batch(2), batch(1)]);
    assert_eq!(r.metrics.len(), 1);
    assert_eq!(r.metrics[0].data_points.len(), 3);
    assert_eq!(r.resource.len(), 1);
    assert_eq!(f.headers(true).len(), 3);
    assert_eq!(f.headers(false).len(), 2);
    let (body, gzip) = f.body(vec![0; 100]).unwrap();
    assert!(gzip && body.len() < 100);
}

#[test]
fn answers_are_checked() {
    let r = |code: u16| Response {
        code,
        status: "503 Service Unavailable".to_string(),
        body: "busy".to_string(),
    };
    assert_eq!(check_response(&r(204)), Ok(()));
    assert_eq!(
        check_response(&r(503)),
        Err("HTTP 503 Service Unavailable: busy".to_string())
    );
}
