use ferrometer::collector::exposition::{Sample, SampleValue};
use ferrometer::collector::prometheus::{Fetch, PrometheusScraper, Report};
use ferrometer::config::{AuthConfig, PrometheusCollectorConfig, TlsConfig};
use ferrometer::error::{Error, Result};
use ferrometer::http::Response;
use ferrometer::labels::one_label;
use ferrometer::signal::{Metric, MetricType, NamePool, Value};
use ferrometer::time::{Duration, Timestamp};

const NOW: Timestamp = Timestamp { nanos: 1_700_000_000_000_000_000 };

fn scraper() -> PrometheusScraper {
    let config = PrometheusCollectorConfig {
        url: "http://t/metrics".to_string(),
        interval: Duration::from_secs(15),
        scrape_timeout: Duration::from_secs(10),
        max_runtime: Duration::from_secs(15),
        auth: AuthConfig::default(),
        tls: TlsConfig::default(),
        static_labels: one_label("job", "haproxy"),
    };
    PrometheusScraper::new("haproxy", &config, Some("Bearer t".to_string()))
}

fn answered(code: u16, body: &str) -> Fetch {
    Fetch::Answered(Response {
        code,
        status: format!("{code} X"),
        body: body.to_string(),
    })
}

fn float(v: f64) -> Value {
    Value::Float { bits: v.to_bits(), divisor: 1 }
}

fn label(m: &Metric, name: &str) -> Option<String> {
    m.labels.get(&name.to_string()).cloned()
}

fn failed() -> Result<(Vec<Metric>, usize)> {
    Err(Error::Collector("down".to_string()))
}

#[test]
fn an_exposition_becomes_metrics() {
    let mut s = scraper();
    let mut pool = NamePool::new();
    let body = "# TYPE requests_total counter\n\
                requests_total{code=\"200\",method=\"get\"} 1027 1395066363000\n\
                # TYPE temp gauge\n\
                temp -3.5\n\
                free_form 7\n\
                # TYPE h histogram\n\
                h_bucket{le=\"0.1\"} 1\n\
                h_bucket{le=\"+Inf\"} 2\n\
                h_sum 3\n";
    let (m, n) = s.scrape_and_parse(answered(200, body), &mut pool, NOW).unwrap();
    assert_eq!(n, 5);
    assert_eq!(m.len(), 4);
    assert_eq!(*m[0].name, "requests_total");
    assert_eq!(m[0].value, float(1027.0));
    assert_eq!(m[0].metric_type, MetricType::Counter);
    assert_eq!(m[0].timestamp.nanos, 1_395_066_363_000_000_000);
    assert_eq!(label(&m[0], "code"), Some("200".to_string()));
    assert_eq!(label(&m[0], "job"), Some("haproxy".to_string()));
    assert_eq!(m[1].value, float(-3.5));
    assert_eq!(m[1].metric_type, MetricType::Gauge);
    assert_eq!(*m[2].name, "free_form");
    assert_eq!(m[2].metric_type, MetricType::Counter);
    assert_eq!(*m[3].name, "h_sum");
}

#[test]
fn samples_are_converted_one_by_one() {
    let mut s = scraper();
    let mut pool = NamePool::new();
    let sample = |value: SampleValue, timestamp: Option<i64>| Sample {
        metric: "x".to_string(),
        value,
        labels: vec![("job".to_string(), "own".to_string()), ("a".to_string(), "1".to_string())],
        timestamp,
    };
    let bits = 2.0f64.to_bits();
    let m = s.sample_to_metric(&sample(SampleValue::Gauge(bits), None), &mut pool, NOW).unwrap();
    assert_eq!(m.timestamp, NOW);
    assert_eq!(m.value, float(2.0));
    assert_eq!(label(&m, "job"), Some("haproxy".to_string()));
    assert_eq!(label(&m, "a"), Some("1".to_string()));
    let old = s.sample_to_metric(&sample(SampleValue::Untyped(bits), Some(-5)), &mut pool, NOW);
    assert_eq!(old.unwrap().timestamp.nanos, 0);
    assert!(s.sample_to_metric(&sample(SampleValue::Histogram, None), &mut pool, NOW).is_none());
    assert!(s.sample_to_metric(&sample(SampleValue::Summary, None), &mut pool, NOW).is_none());
    let all = s.samples_to_metrics(
        &vec![sample(SampleValue::Summary, None), sample(SampleValue::Counter(bits), Some(9))],
        &mut pool,
        NOW,
    );
    assert_eq!(all.len(), 1);
    assert_eq!(all[0].timestamp.nanos, 9);
}

#[test]
fn failures_to_scrape_are_worded() {
    let mut s = scraper();
    let mut pool = NamePool::new();
    let e = |r: Result<String>| r.unwrap_err().message();
    assert_eq!(
        e(s.scrape(Fetch::Unsent("refused".to_string()))),
        "collector error: scrape http://t/metrics: refused"
    );
    assert_eq!(
        e(s.scrape(answered(503, ""))),
        "collector error: scrape http://t/metrics: HTTP 503 X"
    );
    assert_eq!(
        e(s.scrape(Fetch::Unread("eof".to_string()))),
        "collector error: scrape http://t/metrics: body read: eof"
    );
    let p = s.parsed(Err("bad".to_string()), &mut pool, NOW).err().unwrap();
    assert_eq!(p.message(), "collector error: parse scrape http://t/metrics: bad");
    assert_eq!(s.url(), "http://t/metrics");
    assert_eq!(s.name(), "haproxy");
    assert_eq!(s.auth_header(), &Some("Bearer t".to_string()));
}

#[test]
fn every_scrape_reports_its_health() {
    let mut s = scraper();
    let mut pool = NamePool::new();
    let scraped = s.scrape_and_parse(answered(200, "a 1\nb 2\n"), &mut pool, NOW);
    let (m, report) = s.collect(scraped, 0.25f64.to_bits(), &mut pool, NOW);
    assert_eq!(report, Report::Up);
    assert_eq!(m.len(), 5);
    assert_eq!(*m[2].name, "up");
    assert_eq!(m[2].value, Value::Whole(1));
    assert_eq!(*m[3].name, "scrape_duration_seconds");
    assert_eq!(m[3].value, float(0.25));
    assert_eq!(*m[4].name, "scrape_samples_scraped");
    assert_eq!(m[4].value, Value::Whole(2));
    assert_eq!(label(&m[2], "scraper"), Some("haproxy".to_string()));
    assert_eq!(label(&m[2], "job"), Some("haproxy".to_string()));
    let (m, report) = s.collect(failed(), 0, &mut pool, NOW);
    assert_eq!(report, Report::Down);
    assert_eq!(m.len(), 3);
    assert_eq!(m[0].value, Value::Whole(0));
    assert_eq!(m[2].value, Value::Whole(0));
}

#[test]
fn only_changes_are_reported() {
    let mut s = scraper();
    let mut pool = NamePool::new();
    let mut tick = |up: bool| {
        let outcome = if up { Ok((Vec::new(), 0)) } else { failed() };
        s.collect(outcome, 0, &mut pool, NOW).1
    };
    assert_eq!(tick(false), Report::Down);
    assert_eq!(tick(false), Report::StillDown { failed_ticks: 2 });
    assert_eq!(tick(false), Report::StillDown { failed_ticks: 3 });
    assert_eq!(tick(true), Report::Recovered { failed_ticks: 3 });
    assert_eq!(tick(true), Report::Up);
    assert_eq!(tick(false), Report::Down);
}
