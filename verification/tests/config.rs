use ferrometer::cli::{log_filter, summary};
use ferrometer::collector::unix::UnixCollector;
use ferrometer::config::load::Parsed;
use ferrometer::config::placeholder::{expand_placeholders, resolve_placeholder, Environment};
use ferrometer::config::units::{
    duration_fits, parse_byte_size, parse_duration, read_byte_size, ByteSize,
};
use ferrometer::config::{
    default_backoff_initial, default_backoff_max, default_buffer_max_metrics,
    default_disk_devices, default_interval, default_journald_batch_max_bytes,
    default_journald_batch_size, default_journald_batch_wait, default_journald_cursor_file,
    default_journald_labels, default_journald_metadata, default_net_devices,
    default_prometheus_max_runtime, default_prometheus_scrape_timeout,
    default_request_max_metrics, default_shipper_backoff_initial, default_shipper_backoff_max,
    default_timeout, default_true, default_unix_collectors, default_unix_max_runtime, expression,
    is_named_once, is_sub_collector, AuthConfig, CollectorConfig, Compression, Config, ForwarderConfig,
    InstanceConfig, JournaldSourceConfig, LogSinkConfig, LogSourceConfig, LogsConfig,
    LokiSinkConfig, MetricsConfig, OtlphttpForwarderConfig, PrometheusCollectorConfig,
    ShipperConfig, TlsConfig, UnixCollectorConfig,
};
use ferrometer::error::{Error, Result};
use ferrometer::labels::{one_label, Labels};
use ferrometer::ordered::OrderedMap;
use ferrometer::time::Duration;

fn s(t: &str) -> Option<String> {
    Some(t.to_string())
}

fn env() -> Environment {
    Environment {
        version: "0.5.0".to_string(),
        vars: vec![
            ("HOME".to_string(), "/root".to_string()),
            ("EMPTY".to_string(), String::new()),
            ("PART".to_string(), "disk".to_string()),
            ("OPEN".to_string(), "(".to_string()),
            ("STATE_DIRECTORY".to_string(), "/var/lib/ferrometer".to_string()),
        ],
    }
}

fn unix() -> UnixCollectorConfig {
    UnixCollectorConfig {
        interval: default_interval(),
        max_runtime: default_unix_max_runtime(),
        disk_devices: default_disk_devices(),
        net_devices: default_net_devices(),
        filesystem_mount_points: String::new(),
        filesystem_fs_types: String::new(),
        filesystem_dedupe_devices: default_true(),
        hwmon_chips: String::new(),
        collectors: default_unix_collectors(),
        static_labels: OrderedMap::new(),
    }
}

fn prometheus() -> PrometheusCollectorConfig {
    PrometheusCollectorConfig {
        url: "http://127.0.0.1:9021/metrics".to_string(),
        interval: default_interval(),
        scrape_timeout: default_prometheus_scrape_timeout(),
        max_runtime: default_prometheus_max_runtime(),
        auth: AuthConfig::default(),
        tls: TlsConfig::default(),
        static_labels: one_label("host", "${instance.name}"),
    }
}

fn otlp() -> OtlphttpForwarderConfig {
    OtlphttpForwarderConfig {
        endpoint: "http://metrics.example.com:8428/opentelemetry".to_string(),
        auth: AuthConfig::default(),
        tls: TlsConfig::default(),
        compression: Compression::default(),
        timeout: default_timeout(),
        buffer_max_metrics: default_buffer_max_metrics(),
        request_max_metrics: default_request_max_metrics(),
        backoff_initial: default_backoff_initial(),
        backoff_max: default_backoff_max(),
        resource_attributes: one_label("service.version", "${version}"),
    }
}

fn shipper() -> ShipperConfig {
    ShipperConfig {
        source: LogSourceConfig::Journald(JournaldSourceConfig {
            batch_size: default_journald_batch_size(),
            batch_max_bytes: default_journald_batch_max_bytes(),
            batch_wait: default_journald_batch_wait(),
            cursor_file: default_journald_cursor_file(),
            runtime_only: false,
            labels: default_journald_labels(),
            static_labels: OrderedMap::new(),
            metadata: default_journald_metadata(),
        }),
        sink: LogSinkConfig::Loki(LokiSinkConfig {
            endpoint: "http://loki.example.com:3100".to_string(),
            auth: AuthConfig::default(),
            tls: TlsConfig::default(),
        }),
        backoff_initial: default_shipper_backoff_initial(),
        backoff_max: default_shipper_backoff_max(),
    }
}

fn config() -> Config {
    Config {
        instance: InstanceConfig { name: "myhost".to_string() },
        metrics: MetricsConfig {
            collectors: vec![
                ("system".to_string(), CollectorConfig::Unix(unix())),
                ("haproxy".to_string(), CollectorConfig::Prometheus(prometheus())),
            ],
            forwarders: vec![("vm".to_string(), ForwarderConfig::Otlphttp(otlp()))],
        },
        logs: LogsConfig { shippers: vec![("journal".to_string(), shipper())] },
    }
}

fn fault<T>(r: Result<T>) -> String {
    match r {
        Err(Error::Config(m)) => m,
        Err(e) => panic!("{}", e.message()),
        Ok(_) => panic!("no error"),
    }
}

fn value(l: &Labels, name: &str) -> Option<String> {
    l.get(&name.to_string()).cloned()
}

#[test]
fn byte_size_parsing() {
    assert_eq!(parse_byte_size("0"), Ok(0));
    assert_eq!(parse_byte_size("1048576"), Ok(1 << 20));
    assert_eq!(parse_byte_size("1M"), Ok(1_000_000));
    assert_eq!(parse_byte_size("2 mb"), Ok(2_000_000));
    assert_eq!(parse_byte_size("512K"), Ok(512_000));
    assert_eq!(parse_byte_size("1g"), Ok(1_000_000_000));
    assert_eq!(parse_byte_size("1MiB"), Ok(1 << 20));
    assert_eq!(parse_byte_size("1KiB"), Ok(1024));
    assert_eq!(parse_byte_size("1 gib"), Ok(1 << 30));
    assert!(parse_byte_size("").is_err());
    assert!(parse_byte_size("M").is_err());
    assert!(parse_byte_size("1T").is_err());
    assert!(parse_byte_size("1.5M").is_err());
}

#[test]
fn byte_sizes_are_read_in_any_spelling() {
    let units = [
        ("", 1usize), ("b", 1), ("k", 1_000), ("kb", 1_000), ("m", 1_000_000), ("mb", 1_000_000),
        ("g", 1_000_000_000), ("gb", 1_000_000_000), ("kib", 1 << 10), ("mib", 1 << 20),
        ("gib", 1 << 30),
    ];
    for (unit, size) in units {
        for u in [unit.to_string(), unit.to_uppercase()] {
            for w in ["", " ", "\t \u{a0}"] {
                assert_eq!(parse_byte_size(&format!("{w}17{w}{u}{w}")), Ok(17 * size));
                assert_eq!(parse_byte_size(&format!("017{w}{u}")), Ok(17 * size));
            }
        }
    }
    assert_eq!(parse_byte_size("1 gIb"), Ok(1 << 30));
    assert!(parse_byte_size("18446744073709551615 kib").is_err());
    assert!(parse_byte_size("18446744073709551616").is_err());
}

#[test]
fn byte_size_errors_say_what_is_wrong() {
    assert_eq!(
        parse_byte_size(" M ").unwrap_err(),
        "invalid byte size 'M': expected <integer>[K|M|G]"
    );
    assert_eq!(
        parse_byte_size("1T").unwrap_err(),
        "invalid byte size '1T': unknown unit 't' (expected K, M, or G)"
    );
    assert_eq!(
        parse_byte_size("18446744073709551615K").unwrap_err(),
        "invalid byte size '18446744073709551615K': out of range"
    );
    assert_eq!(parse_byte_size("7 B"), Ok(7));
    assert_eq!(read_byte_size(&ByteSize::Int(42)), Ok(42));
    assert_eq!(read_byte_size(&ByteSize::Text("42K".to_string())), Ok(42_000));
    assert_eq!(parse_byte_size(&18_446_744_073_709_551_615u64.to_string()), Ok(usize::MAX));
}

#[test]
fn durations_have_a_unit() {
    assert_eq!(parse_duration("15s").unwrap().as_secs(), 15);
    assert_eq!(parse_duration("2m").unwrap().as_secs(), 120);
    assert_eq!(parse_duration("3h").unwrap().as_secs(), 10800);
    assert_eq!(
        parse_duration("15").unwrap_err(),
        "invalid duration '15': expected suffix s, m, or h"
    );
    assert_eq!(parse_duration("s").unwrap_err(), "cannot parse integer from empty string");
    assert_eq!(parse_duration("1.5s").unwrap_err(), "invalid digit found in string");
    assert_eq!(
        parse_duration("18446744073709551616s").unwrap_err(),
        "number too large to fit in target type"
    );
    assert!(duration_fits("5124095576030431h"));
    assert!(!duration_fits("5124095576030432h"));
    assert!(duration_fits("nonsense"));
}

#[test]
fn unset_options_have_defaults() {
    assert_eq!(default_interval().as_secs(), 15);
    assert_eq!(default_timeout().as_secs(), 30);
    assert_eq!(default_unix_max_runtime().as_secs(), 5);
    assert_eq!(default_prometheus_scrape_timeout().as_secs(), 10);
    assert_eq!(default_prometheus_max_runtime().as_secs(), 15);
    assert_eq!(default_shipper_backoff_initial().as_secs(), 1);
    assert_eq!(default_shipper_backoff_max().as_secs(), 300);
    assert_eq!(default_journald_batch_size(), 1000);
    assert_eq!(default_journald_batch_max_bytes(), 1_000_000);
    assert_eq!(default_journald_cursor_file(), "${env:STATE_DIRECTORY}/journal.cursor");
    assert_eq!(value(&default_journald_labels(), "unit"), s("_SYSTEMD_UNIT"));
    assert_eq!(value(&default_journald_metadata(), "pid"), s("_PID"));
    assert_eq!(default_journald_metadata().len(), 8);
    assert_eq!(default_disk_devices(), "^(nvme\\d+n\\d+|sd[a-z]+|vd[a-z]+)$");
    assert_eq!(default_unix_collectors().len(), 9);
    assert!(is_sub_collector("hwmon"));
    assert!(!is_sub_collector("gpu"));
    assert_eq!(Compression::default(), Compression::Gzip);
}

#[test]
fn placeholders_are_replaced() {
    let e = env();
    let x = |t: &str| expand_placeholders(t, "myhost", &e).unwrap();
    assert_eq!(x("plain"), "plain");
    assert_eq!(x("${instance.name}"), "myhost");
    assert_eq!(x("a${env:HOME}/b-${version}"), "a/root/b-0.5.0");
    assert_eq!(x("${env:EMPTY}"), "");
    assert_eq!(x("cost: $5 {x}"), "cost: $5 {x}");
    assert_eq!(resolve_placeholder("version", "h", &e), Ok("0.5.0".to_string()));
}

#[test]
fn placeholders_that_stand_for_nothing_are_errors() {
    let e = env();
    let x = |t: &str| fault(expand_placeholders(t, "myhost", &e));
    assert_eq!(
        x("a ${env:NOPE}"),
        "in config value 'a ${env:NOPE}': ${env:NOPE} referenced but environment variable 'NOPE' is not set"
    );
    assert_eq!(x("${what}"), "in config value '${what}': unknown placeholder '${what}'");
    assert_eq!(x("x${env:HOME"), "unterminated placeholder in config value 'x${env:HOME'");
}

#[test]
fn a_complete_configuration_is_valid() {
    let c = config();
    assert!(c.validate().is_ok());
    assert_eq!(
        summary(&c),
        "Configuration is valid. 2 collector(s), 1 forwarder(s), 1 log shipper(s) configured."
    );
    assert_eq!(log_filter(0), "ferrometer=info");
    assert_eq!(log_filter(1), "ferrometer=debug");
    assert_eq!(log_filter(2), "ferrometer=trace");
    assert_eq!(log_filter(9), "trace");
}

#[test]
fn what_is_missing_is_reported() {
    let mut c = config();
    c.logs = LogsConfig::default();
    c.metrics.forwarders.clear();
    assert_eq!(fault(c.validate()), "at least one forwarder must be configured");
    c.metrics = MetricsConfig::default();
    assert_eq!(fault(c.validate()), "at least one collector must be configured");
    c.instance.name.clear();
    assert_eq!(fault(c.validate()), "instance.name must not be empty");
}

#[test]
fn expressions_and_sub_collectors_are_checked() {
    let mut u = unix();
    u.collectors.push("gpu".to_string());
    assert_eq!(
        fault(Config::validate_unix_collector("system", &u)),
        "collector system: unknown sub-collector 'gpu'"
    );
    u.hwmon_chips = "(".to_string();
    assert!(fault(Config::validate_unix_collector("system", &u))
        .starts_with("collector system: invalid hwmon-chips regex: "));
    u.filesystem_fs_types = "(".to_string();
    assert!(fault(Config::validate_unix_collector("system", &u))
        .starts_with("collector system: invalid filesystem-fs-types regex: "));
    u.filesystem_mount_points = "(".to_string();
    assert!(fault(Config::validate_unix_collector("system", &u))
        .starts_with("collector system: invalid filesystem-mount-points regex: "));
    u.net_devices = "(".to_string();
    assert!(fault(Config::validate_unix_collector("system", &u))
        .starts_with("collector system: invalid net-devices regex: "));
    u.disk_devices = "(".to_string();
    assert!(fault(Config::validate_unix_collector("system", &u))
        .starts_with("collector system: invalid disk-devices regex: regex parse error"));
}

#[test]
fn expressions_that_do_not_compile_are_reported() {
    let ok = expression("a: ", "invalid x regex: ", Ok(regex::Regex::new("^a").unwrap()));
    assert!(ok.unwrap().is_match("ab"));
    assert_eq!(
        fault(expression("a: ", "invalid x regex: ", Err("unclosed".to_string()))),
        "a: invalid x regex: unclosed"
    );
}

#[test]
fn scrapers_and_forwarders_are_checked() {
    let mut p = prometheus();
    p.url.clear();
    assert_eq!(
        fault(Config::validate_prometheus_collector("haproxy", &p)),
        "collector haproxy: url must not be empty"
    );
    let mut o = otlp();
    o.backoff_initial = Duration::from_secs(301);
    assert_eq!(
        fault(Config::validate_otlphttp_forwarder("vm", &o)),
        "forwarder vm: backoff-initial must not exceed backoff-max"
    );
    o.request_max_metrics = 0;
    assert_eq!(
        fault(Config::validate_otlphttp_forwarder("vm", &o)),
        "forwarder vm: request-max-metrics must be greater than 0"
    );
    o.buffer_max_metrics = 0;
    assert_eq!(
        fault(Config::validate_otlphttp_forwarder("vm", &o)),
        "forwarder vm: buffer-max-metrics must be greater than 0"
    );
    o.tls.client_key_file = s("/key");
    assert_eq!(
        fault(Config::validate_otlphttp_forwarder("vm", &o)),
        "forwarder vm: client-key-file is set but client-cert-file is not"
    );
    o.endpoint.clear();
    assert_eq!(
        fault(Config::validate_otlphttp_forwarder("vm", &o)),
        "forwarder vm: endpoint must not be empty"
    );
}

#[test]
fn shippers_are_checked() {
    let mut c = config();
    c.logs.shippers[0].1.backoff_initial = Duration::from_secs(400);
    assert_eq!(
        fault(c.validate()),
        "shipper journal: backoff-initial must not exceed backoff-max"
    );
    c.logs.shippers[0].1.backoff_initial = Duration::from_secs(1);
    let LogSinkConfig::Loki(sink) = &mut c.logs.shippers[0].1.sink;
    sink.auth.username = s("u");
    assert_eq!(
        fault(c.validate()),
        "shipper journal sink: username set but no password / password-file"
    );
}

#[test]
fn credentials_are_unambiguous_and_complete() {
    let check = |a: &AuthConfig| fault(a.validate("x"));
    let mut a = AuthConfig { username: s("u"), bearer_token: s("t"), ..AuthConfig::default() };
    assert_eq!(
        check(&a),
        "x: multiple auth methods configured; pick one of username/password[-file], bearer-token[-file], or authorization"
    );
    a.username = None;
    a.bearer_token_file = s("f");
    assert_eq!(check(&a), "x: bearer-token and bearer-token-file are mutually exclusive");
    let mut b = AuthConfig { password: s("p"), ..AuthConfig::default() };
    assert_eq!(check(&b), "x: password / password-file set but no username");
    b.password_file = s("f");
    assert_eq!(check(&b), "x: password and password-file are mutually exclusive");
    b.password = None;
    b.username = s("u");
    assert!(b.validate("x").is_ok());
    assert!(AuthConfig::default().validate("x").is_ok());
}

#[test]
fn loading_resolves_every_text() {
    let mut c = config();
    let CollectorConfig::Unix(u) = &mut c.metrics.collectors[0].1 else {
        panic!("no host");
    };
    u.disk_devices = "^${instance.name}$".to_string();
    u.collectors = vec!["cpu".to_string(), "${env:PART}".to_string()];
    let LogSinkConfig::Loki(sink) = &mut c.logs.shippers[0].1.sink;
    sink.auth.username = s("${instance.name}");
    sink.auth.password_file = s("${env:HOME}/pw");
    let r = Config::load("/c", Parsed::Read(c), &env()).unwrap();
    let CollectorConfig::Unix(u) = &r.metrics.collectors[0].1 else {
        panic!("no host");
    };
    assert_eq!(u.disk_devices, "^myhost$");
    assert_eq!(u.net_devices, default_net_devices());
    assert_eq!(u.collectors, vec!["cpu", "disk"]);
    let CollectorConfig::Prometheus(p) = &r.metrics.collectors[1].1 else {
        panic!("no scraper");
    };
    assert_eq!(value(&p.static_labels, "host"), s("myhost"));
    let ForwarderConfig::Otlphttp(o) = &r.metrics.forwarders[0].1;
    assert_eq!(value(&o.resource_attributes, "service.version"), s("0.5.0"));
    let LogSourceConfig::Journald(j) = &r.logs.shippers[0].1.source;
    assert_eq!(j.cursor_file, "/var/lib/ferrometer/journal.cursor");
    let LogSinkConfig::Loki(l) = &r.logs.shippers[0].1.sink;
    assert_eq!(l.auth.username, s("myhost"));
    assert_eq!(l.auth.password_file, s("/root/pw"));
    assert_eq!(l.endpoint, "http://loki.example.com:3100");
}

#[test]
fn the_name_of_the_instance_is_taken_as_it_is_written() {
    let mut c = config();
    c.instance.name = "h-${version}".to_string();
    let r = Config::load("/c", Parsed::Read(c), &env()).unwrap();
    assert_eq!(r.instance.name, "h-${version}");
    let CollectorConfig::Prometheus(p) = &r.metrics.collectors[1].1 else {
        panic!("no scraper");
    };
    assert_eq!(value(&p.static_labels, "host"), s("h-${version}"));
}

fn with_host(u: UnixCollectorConfig) -> Config {
    let mut c = config();
    c.metrics.collectors[0].1 = CollectorConfig::Unix(u);
    c
}

#[test]
fn filters_with_placeholders_are_checked_once_they_are_resolved() {
    let mut u = unix();
    u.disk_devices = "${env:OPEN}".to_string();
    u.collectors = vec!["${env:HOME}".to_string()];
    assert!(Config::validate_unix_collector("system", &u).is_ok());
    assert!(Config::load_unresolved("/c", Parsed::Read(with_host(u))).is_ok());
    let mut u = unix();
    u.disk_devices = "${env:OPEN}".to_string();
    assert!(fault(Config::load("/c", Parsed::Read(with_host(u)), &env()))
        .starts_with("collector system: invalid disk-devices regex: "));
    let mut u = unix();
    u.collectors = vec!["cpu".to_string(), "${env:HOME}".to_string()];
    assert_eq!(
        fault(Config::load("/c", Parsed::Read(with_host(u)), &env())),
        "collector system: unknown sub-collector '/root'"
    );
    let mut u = unix();
    u.net_devices = "${env:NIC}".to_string();
    assert_eq!(
        fault(Config::load("/c", Parsed::Read(with_host(u)), &env())),
        "in config value '${env:NIC}': ${env:NIC} referenced but environment variable 'NIC' is not set"
    );
}

#[test]
fn a_loaded_configuration_makes_its_collectors() {
    let mut u = unix();
    u.filesystem_mount_points = "^${env:HOME}($|/)".to_string();
    u.collectors = vec!["${env:PART}".to_string()];
    let r = Config::load("/c", Parsed::Read(with_host(u)), &env()).unwrap();
    assert!(r.validate().is_ok());
    assert!(r.validate_resolved().is_ok());
    let CollectorConfig::Unix(u) = &r.metrics.collectors[0].1 else {
        panic!("no host");
    };
    assert_eq!(UnixCollector::new("system", u).unwrap().plan().len(), 1);
}

#[test]
fn what_is_resolved_is_checked_as_it_is() {
    let mut u = unix();
    u.hwmon_chips = "${env:HOME}(".to_string();
    let c = with_host(u);
    assert!(c.validate().is_ok());
    assert!(fault(c.validate_resolved())
        .starts_with("collector system: invalid hwmon-chips regex: "));
    let mut c = config();
    c.metrics.forwarders.clear();
    assert_eq!(fault(c.validate_resolved()), "at least one forwarder must be configured");
}

#[test]
fn credentials_resolve_field_by_field() {
    let a = AuthConfig {
        username: s("${instance.name}"),
        password: s("p-${version}"),
        ..AuthConfig::default()
    };
    let r = a.resolve_placeholders("h", &env()).unwrap();
    assert_eq!(r.username, s("h"));
    assert_eq!(r.password, s("p-0.5.0"));
    assert_eq!(r.password_file, None);
    assert_eq!(r.bearer_token, None);
    let b = AuthConfig { bearer_token_file: s("${env:TOKENS}/t"), ..a };
    assert_eq!(
        fault(b.resolve_placeholders("h", &env())),
        "in config value '${env:TOKENS}/t': ${env:TOKENS} referenced but environment variable 'TOKENS' is not set"
    );
    let t = TlsConfig { ca_cert_file: s("${env:HOME}/ca.pem"), ..TlsConfig::default() };
    assert_eq!(t.resolve_placeholders("h", &env()).unwrap().ca_cert_file, s("/root/ca.pem"));
    let t = TlsConfig { client_cert_file: s("${x}"), ..TlsConfig::default() };
    assert!(t.resolve_placeholders("h", &env()).is_err());
}

#[test]
fn names_are_told_apart() {
    let c = config();
    assert!(is_named_once(&c.metrics.collectors));
    let two = vec![("a".to_string(), 1), ("b".to_string(), 2), ("a".to_string(), 3)];
    assert!(!is_named_once(&two));
    let r = Config::load("/c", Parsed::Read(c), &env()).unwrap();
    assert!(is_named_once(&r.metrics.collectors));
    assert_eq!(r.metrics.collectors[1].0, "haproxy");
}

#[test]
fn resolved_credentials_stay_valid() {
    let mut c = config();
    let ForwarderConfig::Otlphttp(o) = &mut c.metrics.forwarders[0].1;
    o.auth.username = s("${instance.name}");
    o.auth.password = s("${env:EMPTY}");
    o.tls.client_cert_file = s("${env:HOME}/c.pem");
    o.tls.client_key_file = s("${env:HOME}/c.key");
    let r = Config::load("/c", Parsed::Read(c), &env()).unwrap();
    let ForwarderConfig::Otlphttp(o) = &r.metrics.forwarders[0].1;
    assert_eq!(o.auth.password, s(""));
    assert!(o.auth.validate("x").is_ok());
    assert!(o.tls.validate("x").is_ok());
}

#[test]
fn a_valid_configuration_makes_a_collector() {
    let c = unix();
    assert!(Config::validate_unix_collector("system", &c).is_ok());
    let u = UnixCollector::new("system", &c).unwrap();
    assert_eq!(u.plan().len(), c.collectors.len());
}

#[test]
fn loading_reports_the_first_placeholder_that_fails() {
    let mut c = config();
    let ForwarderConfig::Otlphttp(o) = &mut c.metrics.forwarders[0].1;
    o.auth.authorization = s("Bearer ${env:TOKEN}");
    assert_eq!(
        fault(Config::load("/c", Parsed::Read(c), &env())),
        "in config value 'Bearer ${env:TOKEN}': ${env:TOKEN} referenced but environment variable 'TOKEN' is not set"
    );
}

#[test]
fn validation_does_not_resolve() {
    let none = Environment { version: String::new(), vars: vec![] };
    assert!(Config::load_unresolved("/c", Parsed::Read(config())).is_ok());
    assert!(Config::load("/c", Parsed::Read(config()), &none).is_err());
}

#[test]
fn files_that_hold_no_configuration_are_reported() {
    assert_eq!(
        fault(Config::load_unresolved("/c", Parsed::Unreadable("gone".to_string()))),
        "failed to read /c: gone"
    );
    assert_eq!(
        fault(Config::load("/c", Parsed::Malformed("line 1".to_string()), &env())),
        "failed to parse config: line 1"
    );
    let mut c = config();
    c.instance.name.clear();
    assert_eq!(
        fault(Config::load("/c", Parsed::Read(c), &env())),
        "instance.name must not be empty"
    );
}
