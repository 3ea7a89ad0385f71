use ferrometer::config::{AuthConfig, LokiSinkConfig, TlsConfig};
use ferrometer::error::Error;
use ferrometer::http::Response;
use ferrometer::labels::{one_label, set_label, Labels};
use ferrometer::log::loki::{
    build_streams, check_response, compress, compressed_body, format_label_string,
    is_payload_too_large, normalize_endpoint, LokiSink,
};
use ferrometer::log::source::LogEntry;
use ferrometer::ordered::OrderedMap;
use ferrometer::time::Timestamp;

fn entry(message: &str, nanos: i128, labels: Labels) -> LogEntry {
    LogEntry {
        timestamp: Timestamp { nanos },
        message: message.to_string(),
        labels,
        metadata: one_label("pid", "1"),
    }
}

fn response(code: u16, body: &str) -> Response {
    Response { code, status: format!("{code} X"), body: body.to_string() }
}

#[test]
fn payload_too_large_classification() {
    assert!(is_payload_too_large(413, ""));
    assert!(is_payload_too_large(
        500,
        "rpc error: code = ResourceExhausted desc = grpc: received message larger than max (5242880 vs. 4194304)"
    ));
    assert!(is_payload_too_large(502, "<html>413 Request Entity Too Large</html>"));
    assert!(!is_payload_too_large(
        500,
        "rpc error: code = Unavailable desc = connection refused"
    ));
    assert!(!is_payload_too_large(429, "Ingestion rate limit exceeded"));
    assert!(!is_payload_too_large(400, "entry too far behind"));
}

#[test]
fn label_sets_are_written_as_prometheus_does() {
    assert_eq!(format_label_string(&OrderedMap::new()), "{}");
    let mut l = one_label("unit", "a\"b\\c\nd");
    set_label(&mut l, "job", "f");
    assert_eq!(format_label_string(&l), "{job=\"f\",unit=\"a\\\"b\\\\c\\nd\"}");
}

#[test]
fn entries_are_grouped_into_streams() {
    let e = vec![
        entry("1", 1_500_000_000, one_label("unit", "b")),
        entry("2", -5, one_label("unit", "a")),
        entry("3", 3, one_label("unit", "b")),
        entry("4", i128::MAX, OrderedMap::new()),
    ];
    let s = build_streams(&e);
    let labels: Vec<&str> = s.iter().map(|x| x.labels.as_str()).collect();
    assert_eq!(labels, vec!["{}", "{unit=\"a\"}", "{unit=\"b\"}"]);
    assert_eq!(s[0].entries[0].seconds, i64::MAX);
    assert_eq!((s[1].entries[0].seconds, s[1].entries[0].nanos), (0, 0));
    assert_eq!((s[2].entries[0].seconds, s[2].entries[0].nanos), (1, 500_000_000));
    let lines: Vec<&str> = s[2].entries.iter().map(|x| x.line.as_str()).collect();
    assert_eq!(lines, vec!["1", "3"]);
    assert_eq!(s[2].entries[1].metadata, vec![("pid".to_string(), "1".to_string())]);
}

#[test]
fn bodies_are_compressed_with_snappy() {
    let data = vec![9u8; 10_000];
    let body = compress(&data).unwrap();
    assert!(body.len() < 1000);
    assert_eq!(snap::raw::Decoder::new().decompress_vec(&body).unwrap(), data);
    assert_eq!(
        compressed_body(Err("too big".to_string())).unwrap_err().message(),
        "log sink error: snappy compress: too big"
    );
}

#[test]
fn answers_decide_what_becomes_of_a_request() {
    assert!(check_response(&response(204, "")).is_ok());
    assert!(matches!(
        check_response(&response(413, "")),
        Err(Error::SinkPayloadTooLarge(m)) if m == "HTTP 413 X: "
    ));
    assert!(matches!(
        check_response(&response(400, "entry too far behind\n")),
        Err(Error::SinkRejected(m)) if m == "HTTP 400 X: entry too far behind"
    ));
    assert!(matches!(
        check_response(&response(400, "line too large")),
        Err(Error::SinkPayloadTooLarge(_))
    ));
    assert!(matches!(
        check_response(&response(500, " <html>\n  <b>oops</b>\r\n</html>\n")),
        Err(Error::Sink(m)) if m == "HTTP 500 X: <html> <b>oops</b> </html>"
    ));
}

#[test]
fn reported_bodies_are_capped() {
    let long = "x".repeat(400);
    let Err(Error::Sink(m)) = check_response(&response(500, &long)) else {
        panic!("no failure");
    };
    assert_eq!(m.len(), "HTTP 500 X: ".len() + 300);
}

#[test]
fn the_sink_knows_its_address() {
    assert_eq!(normalize_endpoint("http://l:3100"), "http://l:3100/loki/api/v1/push");
    assert_eq!(normalize_endpoint("http://l/loki/api/v1/push/"), "http://l/loki/api/v1/push");
    let config = LokiSinkConfig {
        endpoint: "http://l:3100/".to_string(),
        auth: AuthConfig::default(),
        tls: TlsConfig::default(),
    };
    let s = LokiSink::new("journal", &config, None);
    assert_eq!(s.name(), "journal");
    assert_eq!(s.endpoint(), "http://l:3100/loki/api/v1/push");
    assert_eq!(s.headers()[1], ("Content-Encoding", "snappy".to_string()));
    assert!(s.streams(&[]).is_none());
    assert_eq!(s.streams(&[entry("1", 0, OrderedMap::new())]).unwrap().len(), 1);
}
