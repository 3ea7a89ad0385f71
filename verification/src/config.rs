//! The configuration: what it holds, when it is valid, and how it is loaded.
use vstd::prelude::*;

use crate::error::{Error, Result};
use crate::labels::{self, Labels};
use crate::pattern;
use crate::text;
use crate::time::Duration;

pub mod load;
pub mod placeholder;
pub mod resolve;
pub mod units;

verus! {

/// A configuration.
pub struct Config {
    pub instance: InstanceConfig,
    pub metrics: MetricsConfig,
    pub logs: LogsConfig,
}

/// Which instance of the agent this is.
pub struct InstanceConfig {
    pub name: String,
}

/// How an HTTP backend is reached over TLS. Independent of `AuthConfig`: a client
/// certificate identifies the transport, credentials identify the request.
pub struct TlsConfig {
    /// The client certificate (chain) in PEM. May also hold the private key.
    pub client_cert_file: Option<String>,
    /// The private key in PEM. Without it the key is looked for in `client_cert_file`.
    pub client_key_file: Option<String>,
    /// Certificates in PEM that are trusted on top of those of the system.
    pub ca_cert_file: Option<String>,
}

/// The credentials for an HTTP backend: a user with a password, a token, or a whole
/// `Authorization` header.
pub struct AuthConfig {
    pub username: Option<String>,
    pub password: Option<String>,
    pub password_file: Option<String>,
    pub bearer_token: Option<String>,
    pub bearer_token_file: Option<String>,
    /// The value of the header, for any other scheme.
    pub authorization: Option<String>,
}

/// What is collected and where it goes, by name.
pub struct MetricsConfig {
    pub collectors: Vec<(String, CollectorConfig)>,
    pub forwarders: Vec<(String, ForwarderConfig)>,
}

/// Which logs are shipped, by name.
pub struct LogsConfig {
    pub shippers: Vec<(String, ShipperConfig)>,
}

/// A source of logs with the sink that they are shipped to.
pub struct ShipperConfig {
    pub source: LogSourceConfig,
    pub sink: LogSinkConfig,
    /// The first pause after a failure. It doubles with each further failure up to
    /// `backoff_max`, and ends with a success.
    pub backoff_initial: Duration,
    pub backoff_max: Duration,
}

/// A source of logs.
pub enum LogSourceConfig {
    Journald(JournaldSourceConfig),
}

/// How the journal is read.
pub struct JournaldSourceConfig {
    /// The most entries in a batch.
    pub batch_size: usize,
    /// The approximate size of a batch. A batch ends before the entry that would take it
    /// over this size. None where it is 0.
    pub batch_max_bytes: usize,
    /// How long a batch that is not full is held back.
    pub batch_wait: Duration,
    pub cursor_file: String,
    pub runtime_only: bool,
    /// The journal field of each label. An entry without the field has no such label.
    pub labels: Labels,
    /// Labels of every entry.
    pub static_labels: Labels,
    /// The journal field of each item of metadata.
    pub metadata: Labels,
}

/// A sink of logs.
pub enum LogSinkConfig {
    Loki(LokiSinkConfig),
}

/// How Loki is reached.
pub struct LokiSinkConfig {
    pub endpoint: String,
    pub auth: AuthConfig,
    pub tls: TlsConfig,
}

/// A collector of metrics.
pub enum CollectorConfig {
    Unix(UnixCollectorConfig),
    Prometheus(PrometheusCollectorConfig),
}

/// How an endpoint is scraped.
pub struct PrometheusCollectorConfig {
    pub url: String,
    pub interval: Duration,
    /// The time that a request may take.
    pub scrape_timeout: Duration,
    /// The time after which the scheduler gives up on a collection.
    pub max_runtime: Duration,
    pub auth: AuthConfig,
    pub tls: TlsConfig,
    /// Labels of every metric that is scraped.
    pub static_labels: Labels,
}

/// What is collected from the host.
pub struct UnixCollectorConfig {
    pub interval: Duration,
    /// The time after which the scheduler gives up on a collection.
    pub max_runtime: Duration,
    /// Expression for the block devices.
    pub disk_devices: String,
    /// Expression for the network interfaces.
    pub net_devices: String,
    /// Expression for the mount points. The empty one matches all.
    pub filesystem_mount_points: String,
    /// Expression for the types of filesystems. The empty one matches all.
    pub filesystem_fs_types: String,
    /// Whether one mount is reported for each device.
    pub filesystem_dedupe_devices: bool,
    /// Expression for the sensor chips. The empty one matches all.
    pub hwmon_chips: String,
    /// The sub-collectors that run, in this order.
    pub collectors: Vec<String>,
    /// Labels of every metric.
    pub static_labels: Labels,
}

/// A forwarder of metrics.
pub enum ForwarderConfig {
    Otlphttp(OtlphttpForwarderConfig),
}

/// How metrics are forwarded by OTLP over HTTP.
pub struct OtlphttpForwarderConfig {
    pub endpoint: String,
    pub auth: AuthConfig,
    pub tls: TlsConfig,
    pub compression: Compression,
    pub timeout: Duration,
    pub buffer_max_metrics: usize,
    pub request_max_metrics: usize,
    pub backoff_initial: Duration,
    pub backoff_max: Duration,
    /// Attributes of the OTLP resource, as opposed to those of the data points, which are
    /// the labels of the metrics.
    pub resource_attributes: Labels,
}

/// How a request is compressed.
#[derive(Debug, Clone, Copy, PartialEq, Eq, Structural)]
pub enum Compression {
    Gzip,
    Plain,
}

// Defaults

impl Default for Compression {
    fn default() -> (c: Compression)
        ensures
            c == Compression::Gzip,
    {
        Compression::Gzip
    }
}

impl Default for TlsConfig {
    fn default() -> (c: TlsConfig)
        ensures
            c.client_cert_file is None,
            c.client_key_file is None,
            c.ca_cert_file is None,
    {
        TlsConfig { client_cert_file: None, client_key_file: None, ca_cert_file: None }
    }
}

impl Default for AuthConfig {
    fn default() -> (c: AuthConfig)
        ensures
            c.username is None,
            c.password is None,
            c.password_file is None,
            c.bearer_token is None,
            c.bearer_token_file is None,
            c.authorization is None,
    {
        AuthConfig {
            username: None,
            password: None,
            password_file: None,
            bearer_token: None,
            bearer_token_file: None,
            authorization: None,
        }
    }
}

impl Default for MetricsConfig {
    fn default() -> (c: MetricsConfig)
        ensures
            c.collectors@.len() == 0,
            c.forwarders@.len() == 0,
    {
        MetricsConfig { collectors: Vec::new(), forwarders: Vec::new() }
    }
}

impl Default for LogsConfig {
    fn default() -> (c: LogsConfig)
        ensures
            c.shippers@.len() == 0,
    {
        LogsConfig { shippers: Vec::new() }
    }
}

pub fn default_shipper_backoff_initial() -> (d: Duration)
    ensures
        d@ == 1_000_000_000,
{
    Duration::from_secs(1)
}

pub fn default_shipper_backoff_max() -> (d: Duration)
    ensures
        d@ == 300_000_000_000,
{
    Duration::from_secs(300)
}

pub fn default_journald_batch_size() -> (n: usize)
    ensures
        n == 1000,
{
    1000
}

/// Well under the largest message that Loki takes (4 MiB), even with what the encoding
/// adds.
pub fn default_journald_batch_max_bytes() -> (n: usize)
    ensures
        n == 1_000_000,
{
    1_000_000
}

pub fn default_journald_batch_wait() -> (d: Duration)
    ensures
        d@ == 5_000_000_000,
{
    Duration::from_secs(5)
}

pub fn default_journald_cursor_file() -> (s: String)
    ensures
        s@ == "${env:STATE_DIRECTORY}/journal.cursor"@,
{
    text::owned("${env:STATE_DIRECTORY}/journal.cursor")
}

pub fn default_journald_labels() -> (l: Labels)
    ensures
        l@ == Map::<Seq<char>, Seq<char>>::empty().insert("unit"@, "_SYSTEMD_UNIT"@).insert(
            "priority"@,
            "PRIORITY"@,
        ),
{
    let mut l = labels::one_label("unit", "_SYSTEMD_UNIT");
    labels::set_label(&mut l, "priority", "PRIORITY");
    l
}

pub fn default_journald_metadata() -> (l: Labels)
    ensures
        l@ == Map::<Seq<char>, Seq<char>>::empty().insert("pid"@, "_PID"@).insert(
            "syslog_identifier"@,
            "SYSLOG_IDENTIFIER"@,
        ).insert("syslog_facility"@, "SYSLOG_FACILITY"@).insert("transport"@, "_TRANSPORT"@).insert(
            "hostname"@,
            "_HOSTNAME"@,
        ).insert("boot_id"@, "_BOOT_ID"@).insert("machine_id"@, "_MACHINE_ID"@).insert(
            "cmdline"@,
            "_CMDLINE"@,
        ),
{
    let mut l = labels::one_label("pid", "_PID");
    labels::set_label(&mut l, "syslog_identifier", "SYSLOG_IDENTIFIER");
    labels::set_label(&mut l, "syslog_facility", "SYSLOG_FACILITY");
    labels::set_label(&mut l, "transport", "_TRANSPORT");
    labels::set_label(&mut l, "hostname", "_HOSTNAME");
    labels::set_label(&mut l, "boot_id", "_BOOT_ID");
    labels::set_label(&mut l, "machine_id", "_MACHINE_ID");
    labels::set_label(&mut l, "cmdline", "_CMDLINE");
    l
}

pub fn default_prometheus_scrape_timeout() -> (d: Duration)
    ensures
        d@ == 10_000_000_000,
{
    Duration::from_secs(10)
}

pub fn default_prometheus_max_runtime() -> (d: Duration)
    ensures
        d@ == 15_000_000_000,
{
    Duration::from_secs(15)
}

pub fn default_unix_max_runtime() -> (d: Duration)
    ensures
        d@ == 5_000_000_000,
{
    Duration::from_secs(5)
}

pub fn default_true() -> (b: bool)
    ensures
        b,
{
    true
}

pub fn default_interval() -> (d: Duration)
    ensures
        d@ == 15_000_000_000,
{
    Duration::from_secs(15)
}

pub fn default_disk_devices() -> (s: String)
    ensures
        s@ == "^(nvme\\d+n\\d+|sd[a-z]+|vd[a-z]+)$"@,
{
    text::owned("^(nvme\\d+n\\d+|sd[a-z]+|vd[a-z]+)$")
}

pub fn default_net_devices() -> (s: String)
    ensures
        s@ == "^(eth|en|wl|bond)"@,
{
    text::owned("^(eth|en|wl|bond)")
}

/// The names of the sub-collectors of the host, in the order in which they run by default.
pub open spec fn sub_collectors() -> Seq<Seq<char>> {
    seq![
        "cpu"@,
        "memory"@,
        "disk"@,
        "filesystem"@,
        "md"@,
        "hwmon"@,
        "netdev"@,
        "loadavg"@,
        "uname"@,
    ]
}

pub fn default_unix_collectors() -> (v: Vec<String>)
    ensures
        text::texts(v@) == sub_collectors(),
{
    let v: Vec<String> = vec![
        text::owned("cpu"),
        text::owned("memory"),
        text::owned("disk"),
        text::owned("filesystem"),
        text::owned("md"),
        text::owned("hwmon"),
        text::owned("netdev"),
        text::owned("loadavg"),
        text::owned("uname"),
    ];
    assert(text::texts(v@) =~= sub_collectors());
    v
}

pub fn default_timeout() -> (d: Duration)
    ensures
        d@ == 30_000_000_000,
{
    Duration::from_secs(30)
}

pub fn default_buffer_max_metrics() -> (n: usize)
    ensures
        n == 100_000,
{
    100_000
}

pub fn default_request_max_metrics() -> (n: usize)
    ensures
        n == 10_000,
{
    10_000
}

pub fn default_backoff_initial() -> (d: Duration)
    ensures
        d@ == 1_000_000_000,
{
    Duration::from_secs(1)
}

pub fn default_backoff_max() -> (d: Duration)
    ensures
        d@ == 300_000_000_000,
{
    Duration::from_secs(300)
}

// Names

/// No name occurs twice.
pub open spec fn named_once<T>(c: Seq<(String, T)>) -> bool {
    forall|i: int, j: int|
        0 <= i < j < c.len() ==> (#[trigger] c[i]).0@ != (#[trigger] c[j]).0@
}

/// Whether no name occurs twice.
pub fn is_named_once<T>(c: &Vec<(String, T)>) -> (r: bool)
    ensures
        r == named_once(c@),
{
    let mut i: usize = 0;
    while i < c.len()
        invariant
            i <= c@.len(),
            forall|k: int, l: int|
                0 <= k < i && k < l < c@.len() ==> (#[trigger] c@[k]).0@ != (#[trigger] c@[l]).0@,
        decreases c@.len() - i,
    {
        let mut j: usize = i + 1;
        while j < c.len()
            invariant
                i < j <= c@.len(),
                forall|l: int| i < l < j ==> c@[i as int].0@ != (#[trigger] c@[l]).0@,
            decreases c@.len() - j,
        {
            if text::same(c[i].0.as_str(), c[j].0.as_str()) {
                return false;
            }
            j = j + 1;
        }
        i = i + 1;
    }
    true
}

impl Config {
    /// Every collector, every forwarder and every shipper has a name of its own.
    pub open spec fn names_are_distinct(self) -> bool {
        &&& named_once(self.metrics.collectors@)
        &&& named_once(self.metrics.forwarders@)
        &&& named_once(self.logs.shippers@)
    }
}

// Validation

/// A check says what is wrong, if anything is: a configuration error with that text.
pub open spec fn reports(r: Result<()>, fault: Option<Seq<char>>) -> bool {
    match r {
        Ok(_) => fault is None,
        Err(e) => fault matches Some(m) && e.is_config(m),
    }
}

/// The first of two faults.
pub open spec fn either(a: Option<Seq<char>>, b: Option<Seq<char>>) -> Option<Seq<char>> {
    match a {
        Some(m) => Some(m),
        None => b,
    }
}

impl TlsConfig {
    /// What is wrong with the settings.
    pub open spec fn fault(self, ctx: Seq<char>) -> Option<Seq<char>> {
        if self.client_key_file is Some && self.client_cert_file is None {
            Some(ctx + ": client-key-file is set but client-cert-file is not"@)
        } else {
            None
        }
    }

    /// Checks that there is a certificate for the key.
    pub fn validate(&self, ctx: &str) -> (r: Result<()>)
        ensures
            reports(r, self.fault(ctx@)),
    {
        if self.client_key_file.is_some() && self.client_cert_file.is_none() {
            return Err(
                Error::Config(
                    text::cat2(ctx, ": client-key-file is set but client-cert-file is not"),
                ),
            );
        }
        Ok(())
    }
}

impl AuthConfig {
    /// Something is set for a user with a password.
    pub open spec fn basic(self) -> bool {
        self.username is Some || self.password is Some || self.password_file is Some
    }

    /// Something is set for a token.
    pub open spec fn bearer(self) -> bool {
        self.bearer_token is Some || self.bearer_token_file is Some
    }

    /// The header is set.
    pub open spec fn header(self) -> bool {
        self.authorization is Some
    }

    /// What is wrong with the credentials: more than one method, a secret that is given
    /// twice, or half of a user with a password.
    pub open spec fn fault(self, ctx: Seq<char>) -> Option<Seq<char>> {
        if self.basic() && self.bearer() || self.basic() && self.header() || self.bearer()
            && self.header() {
            Some(
                ctx
                    + ": multiple auth methods configured; pick one of username/password[-file], bearer-token[-file], or authorization"@,
            )
        } else if self.password is Some && self.password_file is Some {
            Some(ctx + ": password and password-file are mutually exclusive"@)
        } else if self.bearer_token is Some && self.bearer_token_file is Some {
            Some(ctx + ": bearer-token and bearer-token-file are mutually exclusive"@)
        } else if self.username is Some && self.password is None && self.password_file is None {
            Some(ctx + ": username set but no password / password-file"@)
        } else if self.basic() && self.username is None {
            Some(ctx + ": password / password-file set but no username"@)
        } else {
            None
        }
    }

    /// Checks that the credentials are complete and unambiguous.
    pub fn validate(&self, ctx: &str) -> (r: Result<()>)
        ensures
            reports(r, self.fault(ctx@)),
    {
        let basic = self.username.is_some() || self.password.is_some()
            || self.password_file.is_some();
        let bearer = self.bearer_token.is_some() || self.bearer_token_file.is_some();
        let header = self.authorization.is_some();
        if basic && bearer || basic && header || bearer && header {
            return Err(
                Error::Config(
                    text::cat2(
                        ctx,
                        ": multiple auth methods configured; pick one of username/password[-file], bearer-token[-file], or authorization",
                    ),
                ),
            );
        }
        if self.password.is_some() && self.password_file.is_some() {
            return Err(
                Error::Config(
                    text::cat2(ctx, ": password and password-file are mutually exclusive"),
                ),
            );
        }
        if self.bearer_token.is_some() && self.bearer_token_file.is_some() {
            return Err(
                Error::Config(
                    text::cat2(ctx, ": bearer-token and bearer-token-file are mutually exclusive"),
                ),
            );
        }
        if self.username.is_some() && self.password.is_none() && self.password_file.is_none() {
            return Err(
                Error::Config(text::cat2(ctx, ": username set but no password / password-file")),
            );
        }
        if basic && self.username.is_none() {
            return Err(
                Error::Config(text::cat2(ctx, ": password / password-file set but no username")),
            );
        }
        Ok(())
    }
}

/// What is wrong with an expression: that it does not compile.
pub open spec fn regex_fault(ctx: Seq<char>, what: Seq<char>, regex: Seq<char>) -> Option<Seq<char>> {
    match pattern::compiled(regex) {
        Ok(_) => None,
        Err(e) => Some(ctx + what + e),
    }
}

/// An expression, given what compiling it came to.
pub fn expression(
    ctx: &str,
    what: &str,
    compiled: std::result::Result<regex::Regex, String>,
) -> (r: Result<regex::Regex>)
    ensures
        match compiled {
            Ok(re) => r == Ok::<regex::Regex, Error>(re),
            Err(e) => r matches Err(x) && x.is_config(ctx@ + what@ + e@),
        },
{
    match compiled {
        Ok(re) => Ok(re),
        Err(e) => Err(Error::Config(text::cat3(ctx, what, e.as_str()))),
    }
}

/// A text holds a placeholder, so that what it stands for is not known as it is written.
pub open spec fn has_placeholder(s: Seq<char>) -> bool {
    text::holds(s, "${"@)
}

/// What is wrong with an expression as it is written: nothing where it holds a placeholder.
pub open spec fn written_regex_fault(
    ctx: Seq<char>,
    what: Seq<char>,
    regex: Seq<char>,
    written: bool,
) -> Option<Seq<char>> {
    if written && has_placeholder(regex) {
        None
    } else {
        regex_fault(ctx, what, regex)
    }
}

fn validate_regex(ctx: &str, what: &str, regex: &str, written: bool) -> (r: Result<()>)
    ensures
        reports(r, written_regex_fault(ctx@, what@, regex@, written)),
{
    if written && text::contains(regex, "${") {
        return Ok(());
    }
    match expression(ctx, what, pattern::compile(regex)) {
        Ok(_) => Ok(()),
        Err(e) => Err(e),
    }
}

/// What is wrong with a list of sub-collectors: the first one that is unknown. As they are
/// written, those that hold a placeholder are passed over.
pub open spec fn unknown_sub_collector(
    ctx: Seq<char>,
    names: Seq<Seq<char>>,
    written: bool,
) -> Option<Seq<char>>
    decreases names.len(),
{
    if names.len() == 0 {
        None
    } else if sub_collectors().contains(names[0]) || (written && has_placeholder(names[0])) {
        unknown_sub_collector(ctx, names.drop_first(), written)
    } else {
        Some(ctx + "unknown sub-collector '"@ + names[0] + "'"@)
    }
}

/// Whether a sub-collector is known.
pub fn is_sub_collector(name: &str) -> (r: bool)
    ensures
        r == sub_collectors().contains(name@),
{
    let r = text::same(name, "cpu") || text::same(name, "memory") || text::same(name, "disk")
        || text::same(name, "filesystem") || text::same(name, "md") || text::same(name, "hwmon")
        || text::same(name, "netdev") || text::same(name, "loadavg") || text::same(name, "uname");
    proof {
        let s = sub_collectors();
        assert(s[0] == "cpu"@ && s[1] == "memory"@ && s[2] == "disk"@ && s[3] == "filesystem"@);
        assert(s[4] == "md"@ && s[5] == "hwmon"@ && s[6] == "netdev"@ && s[7] == "loadavg"@);
        assert(s[8] == "uname"@);
    }
    r
}

fn validate_sub_collectors(ctx: &str, names: &Vec<String>, written: bool) -> (r: Result<()>)
    ensures
        reports(r, unknown_sub_collector(ctx@, text::texts(names@), written)),
{
    let ghost all = text::texts(names@);
    let mut i: usize = 0;
    assert(all.skip(0) =~= all);
    while i < names.len()
        invariant
            i <= names@.len(),
            all == text::texts(names@),
            unknown_sub_collector(ctx@, all.skip(i as int), written) == unknown_sub_collector(
                ctx@,
                all,
                written,
            ),
        decreases names@.len() - i,
    {
        assert(all.skip(i as int)[0] == names@[i as int]@);
        assert(all.skip(i as int).drop_first() =~= all.skip(i + 1));
        if !is_sub_collector(names[i].as_str()) && !(written && text::contains(
            names[i].as_str(),
            "${",
        )) {
            return Err(
                Error::Config(
                    text::cat4(ctx, "unknown sub-collector '", names[i].as_str(), "'"),
                ),
            );
        }
        i = i + 1;
    }
    Ok(())
}

impl UnixCollectorConfig {
    /// What is wrong with the collector. As it is written, what holds a placeholder is passed
    /// over.
    pub open spec fn faults(self, name: Seq<char>, written: bool) -> Option<Seq<char>> {
        let ctx = "collector "@ + name + ": "@;
        either(
            written_regex_fault(
                ctx,
                "invalid disk-devices regex: "@,
                self.disk_devices@,
                written,
            ),
            either(
                written_regex_fault(
                    ctx,
                    "invalid net-devices regex: "@,
                    self.net_devices@,
                    written,
                ),
                either(
                    written_regex_fault(
                        ctx,
                        "invalid filesystem-mount-points regex: "@,
                        self.filesystem_mount_points@,
                        written,
                    ),
                    either(
                        written_regex_fault(
                            ctx,
                            "invalid filesystem-fs-types regex: "@,
                            self.filesystem_fs_types@,
                            written,
                        ),
                        either(
                            written_regex_fault(
                                ctx,
                                "invalid hwmon-chips regex: "@,
                                self.hwmon_chips@,
                                written,
                            ),
                            unknown_sub_collector(ctx, text::texts(self.collectors@), written),
                        ),
                    ),
                ),
            ),
        )
    }

    /// What is wrong with the collector as it is written.
    pub open spec fn fault(self, name: Seq<char>) -> Option<Seq<char>> {
        self.faults(name, true)
    }

    /// What is wrong with the collector once its placeholders are replaced.
    pub open spec fn resolved_fault(self, name: Seq<char>) -> Option<Seq<char>> {
        self.faults(name, false)
    }
}

impl PrometheusCollectorConfig {
    /// What is wrong with the collector.
    pub open spec fn fault(self, name: Seq<char>) -> Option<Seq<char>> {
        let ctx = "collector "@ + name;
        if self.url@.len() == 0 {
            Some(ctx + ": url must not be empty"@)
        } else {
            either(self.auth.fault(ctx), self.tls.fault(ctx))
        }
    }
}

impl CollectorConfig {
    /// What is wrong with the collector.
    pub open spec fn fault(self, name: Seq<char>) -> Option<Seq<char>> {
        match self {
            CollectorConfig::Unix(c) => c.fault(name),
            CollectorConfig::Prometheus(c) => c.fault(name),
        }
    }
}

impl CollectorConfig {
    /// What is wrong with the collector once its placeholders are replaced, besides what is
    /// wrong with it as it is written.
    pub open spec fn resolved_fault(self, name: Seq<char>) -> Option<Seq<char>> {
        match self {
            CollectorConfig::Unix(c) => c.resolved_fault(name),
            CollectorConfig::Prometheus(_) => None,
        }
    }
}

impl OtlphttpForwarderConfig {
    /// What is wrong with the forwarder.
    pub open spec fn fault(self, name: Seq<char>) -> Option<Seq<char>> {
        let ctx = "forwarder "@ + name;
        if self.endpoint@.len() == 0 {
            Some(ctx + ": endpoint must not be empty"@)
        } else {
            either(
                self.auth.fault(ctx),
                either(
                    self.tls.fault(ctx),
                    if self.buffer_max_metrics == 0 {
                        Some(ctx + ": buffer-max-metrics must be greater than 0"@)
                    } else if self.request_max_metrics == 0 {
                        Some(ctx + ": request-max-metrics must be greater than 0"@)
                    } else if self.backoff_initial@ > self.backoff_max@ {
                        Some(ctx + ": backoff-initial must not exceed backoff-max"@)
                    } else {
                        None
                    },
                ),
            )
        }
    }
}

impl ForwarderConfig {
    /// What is wrong with the forwarder.
    pub open spec fn fault(self, name: Seq<char>) -> Option<Seq<char>> {
        match self {
            ForwarderConfig::Otlphttp(c) => c.fault(name),
        }
    }
}

impl ShipperConfig {
    /// What is wrong with the shipper.
    pub open spec fn fault(self, name: Seq<char>) -> Option<Seq<char>> {
        if self.backoff_initial@ > self.backoff_max@ {
            Some("shipper "@ + name + ": backoff-initial must not exceed backoff-max"@)
        } else {
            match self.sink {
                LogSinkConfig::Loki(c) => {
                    let ctx = "shipper "@ + name + " sink"@;
                    either(c.auth.fault(ctx), c.tls.fault(ctx))
                },
            }
        }
    }
}

/// The first thing that is wrong with some collectors.
pub open spec fn collectors_fault(c: Seq<(String, CollectorConfig)>) -> Option<Seq<char>>
    decreases c.len(),
{
    if c.len() == 0 {
        None
    } else {
        either(collectors_fault(c.drop_last()), c.last().1.fault(c.last().0@))
    }
}

/// The first thing that is wrong with some collectors once their placeholders are replaced.
pub open spec fn resolved_collectors_fault(c: Seq<(String, CollectorConfig)>) -> Option<Seq<char>>
    decreases c.len(),
{
    if c.len() == 0 {
        None
    } else {
        either(
            resolved_collectors_fault(c.drop_last()),
            c.last().1.resolved_fault(c.last().0@),
        )
    }
}

/// The first thing that is wrong with some forwarders.
pub open spec fn forwarders_fault(c: Seq<(String, ForwarderConfig)>) -> Option<Seq<char>>
    decreases c.len(),
{
    if c.len() == 0 {
        None
    } else {
        either(forwarders_fault(c.drop_last()), c.last().1.fault(c.last().0@))
    }
}

/// The first thing that is wrong with some shippers.
pub open spec fn shippers_fault(c: Seq<(String, ShipperConfig)>) -> Option<Seq<char>>
    decreases c.len(),
{
    if c.len() == 0 {
        None
    } else {
        either(shippers_fault(c.drop_last()), c.last().1.fault(c.last().0@))
    }
}

proof fn collectors_fault_stays(c: Seq<(String, CollectorConfig)>, n: int)
    requires
        0 <= n <= c.len(),
        collectors_fault(c.take(n)) is Some,
    ensures
        collectors_fault(c) == collectors_fault(c.take(n)),
    decreases c.len(),
{
    if n < c.len() {
        assert(c.drop_last().take(n) =~= c.take(n));
        collectors_fault_stays(c.drop_last(), n);
    } else {
        assert(c.take(n) =~= c);
    }
}

proof fn resolved_collectors_fault_stays(c: Seq<(String, CollectorConfig)>, n: int)
    requires
        0 <= n <= c.len(),
        resolved_collectors_fault(c.take(n)) is Some,
    ensures
        resolved_collectors_fault(c) == resolved_collectors_fault(c.take(n)),
    decreases c.len(),
{
    if n < c.len() {
        assert(c.drop_last().take(n) =~= c.take(n));
        resolved_collectors_fault_stays(c.drop_last(), n);
    } else {
        assert(c.take(n) =~= c);
    }
}

proof fn forwarders_fault_stays(c: Seq<(String, ForwarderConfig)>, n: int)
    requires
        0 <= n <= c.len(),
        forwarders_fault(c.take(n)) is Some,
    ensures
        forwarders_fault(c) == forwarders_fault(c.take(n)),
    decreases c.len(),
{
    if n < c.len() {
        assert(c.drop_last().take(n) =~= c.take(n));
        forwarders_fault_stays(c.drop_last(), n);
    } else {
        assert(c.take(n) =~= c);
    }
}

proof fn shippers_fault_stays(c: Seq<(String, ShipperConfig)>, n: int)
    requires
        0 <= n <= c.len(),
        shippers_fault(c.take(n)) is Some,
    ensures
        shippers_fault(c) == shippers_fault(c.take(n)),
    decreases c.len(),
{
    if n < c.len() {
        assert(c.drop_last().take(n) =~= c.take(n));
        shippers_fault_stays(c.drop_last(), n);
    } else {
        assert(c.take(n) =~= c);
    }
}

impl Config {
    /// What is wrong with the configuration as it is written: the first fault, in the order
    /// instance, collectors, forwarders, shippers.
    pub open spec fn fault(self) -> Option<Seq<char>> {
        if self.instance.name@.len() == 0 {
            Some("instance.name must not be empty"@)
        } else if self.metrics.collectors@.len() == 0 {
            Some("at least one collector must be configured"@)
        } else if self.metrics.forwarders@.len() == 0 {
            Some("at least one forwarder must be configured"@)
        } else {
            either(
                collectors_fault(self.metrics.collectors@),
                either(
                    forwarders_fault(self.metrics.forwarders@),
                    shippers_fault(self.logs.shippers@),
                ),
            )
        }
    }

    /// What is wrong with the configuration once its placeholders are replaced: what is wrong
    /// with it in any case, and then with expressions and sub-collectors that had been passed
    /// over.
    pub open spec fn resolved_fault(self) -> Option<Seq<char>> {
        either(self.fault(), resolved_collectors_fault(self.metrics.collectors@))
    }

    /// Checks the configuration once its placeholders are replaced.
    pub fn validate_resolved(&self) -> (r: Result<()>)
        ensures
            reports(r, self.resolved_fault()),
    {
        match self.validate() {
            Ok(_) => {},
            Err(e) => {
                return Err(e);
            },
        }
        let c = &self.metrics.collectors;
        let mut i: usize = 0;
        while i < c.len()
            invariant
                i <= c@.len(),
                c@ == self.metrics.collectors@,
                self.fault() is None,
                resolved_collectors_fault(c@.take(i as int)) is None,
            decreases c@.len() - i,
        {
            assert(c@.take(i + 1).drop_last() =~= c@.take(i as int));
            assert(c@.take(i + 1).last() == c@[i as int]);
            let checked = match &c[i].1 {
                CollectorConfig::Unix(unix) => Self::check_unix_collector(
                    c[i].0.as_str(),
                    unix,
                    false,
                ),
                CollectorConfig::Prometheus(_) => Ok(()),
            };
            match checked {
                Ok(_) => {},
                Err(e) => {
                    proof {
                        resolved_collectors_fault_stays(c@, i + 1);
                    }
                    return Err(e);
                },
            }
            i = i + 1;
        }
        assert(c@.take(i as int) =~= c@);
        Ok(())
    }

    /// Checks the configuration as it is written, with its placeholders.
    pub fn validate(&self) -> (r: Result<()>)
        ensures
            reports(r, self.fault()),
    {
        if text::chars_of(self.instance.name.as_str()).len() == 0 {
            return Err(Error::Config(text::owned("instance.name must not be empty")));
        }
        if self.metrics.collectors.len() == 0 {
            return Err(Error::Config(text::owned("at least one collector must be configured")));
        }
        if self.metrics.forwarders.len() == 0 {
            return Err(Error::Config(text::owned("at least one forwarder must be configured")));
        }
        match Self::validate_collectors(&self.metrics.collectors) {
            Ok(_) => {},
            Err(e) => {
                return Err(e);
            },
        }
        match Self::validate_forwarders(&self.metrics.forwarders) {
            Ok(_) => {},
            Err(e) => {
                return Err(e);
            },
        }
        Self::validate_shippers(&self.logs.shippers)
    }

    fn validate_collectors(c: &Vec<(String, CollectorConfig)>) -> (r: Result<()>)
        ensures
            reports(r, collectors_fault(c@)),
    {
        let mut i: usize = 0;
        while i < c.len()
            invariant
                i <= c@.len(),
                collectors_fault(c@.take(i as int)) is None,
            decreases c@.len() - i,
        {
            assert(c@.take(i + 1).drop_last() =~= c@.take(i as int));
            assert(c@.take(i + 1).last() == c@[i as int]);
            let checked = match &c[i].1 {
                CollectorConfig::Unix(unix) => Self::validate_unix_collector(c[i].0.as_str(), unix),
                CollectorConfig::Prometheus(prom) => Self::validate_prometheus_collector(
                    c[i].0.as_str(),
                    prom,
                ),
            };
            match checked {
                Ok(_) => {},
                Err(e) => {
                    proof {
                        collectors_fault_stays(c@, i + 1);
                    }
                    return Err(e);
                },
            }
            i = i + 1;
        }
        assert(c@.take(i as int) =~= c@);
        Ok(())
    }

    fn validate_forwarders(c: &Vec<(String, ForwarderConfig)>) -> (r: Result<()>)
        ensures
            reports(r, forwarders_fault(c@)),
    {
        let mut i: usize = 0;
        while i < c.len()
            invariant
                i <= c@.len(),
                forwarders_fault(c@.take(i as int)) is None,
            decreases c@.len() - i,
        {
            assert(c@.take(i + 1).drop_last() =~= c@.take(i as int));
            assert(c@.take(i + 1).last() == c@[i as int]);
            let checked = match &c[i].1 {
                ForwarderConfig::Otlphttp(otlp) => Self::validate_otlphttp_forwarder(
                    c[i].0.as_str(),
                    otlp,
                ),
            };
            match checked {
                Ok(_) => {},
                Err(e) => {
                    proof {
                        forwarders_fault_stays(c@, i + 1);
                    }
                    return Err(e);
                },
            }
            i = i + 1;
        }
        assert(c@.take(i as int) =~= c@);
        Ok(())
    }

    fn validate_shippers(c: &Vec<(String, ShipperConfig)>) -> (r: Result<()>)
        ensures
            reports(r, shippers_fault(c@)),
    {
        let mut i: usize = 0;
        while i < c.len()
            invariant
                i <= c@.len(),
                shippers_fault(c@.take(i as int)) is None,
            decreases c@.len() - i,
        {
            assert(c@.take(i + 1).drop_last() =~= c@.take(i as int));
            assert(c@.take(i + 1).last() == c@[i as int]);
            match Self::validate_shipper(c[i].0.as_str(), &c[i].1) {
                Ok(_) => {},
                Err(e) => {
                    proof {
                        shippers_fault_stays(c@, i + 1);
                    }
                    return Err(e);
                },
            }
            i = i + 1;
        }
        assert(c@.take(i as int) =~= c@);
        Ok(())
    }

    fn validate_shipper(name: &str, config: &ShipperConfig) -> (r: Result<()>)
        ensures
            reports(r, config.fault(name@)),
    {
        if config.backoff_initial.exceeds(config.backoff_max) {
            return Err(
                Error::Config(
                    text::cat3("shipper ", name, ": backoff-initial must not exceed backoff-max"),
                ),
            );
        }
        let ctx = text::cat3("shipper ", name, " sink");
        match &config.sink {
            LogSinkConfig::Loki(c) => {
                match c.auth.validate(ctx.as_str()) {
                    Ok(_) => {},
                    Err(e) => {
                        return Err(e);
                    },
                }
                c.tls.validate(ctx.as_str())
            },
        }
    }

    /// Checks the expressions and the sub-collectors of a collector as they are written. What
    /// holds a placeholder is checked once it is replaced.
    pub fn validate_unix_collector(name: &str, config: &UnixCollectorConfig) -> (r: Result<()>)
        ensures
            reports(r, config.fault(name@)),
    {
        Self::check_unix_collector(name, config, true)
    }

    fn check_unix_collector(name: &str, config: &UnixCollectorConfig, written: bool) -> (r: Result<
        (),
    >)
        ensures
            reports(r, config.faults(name@, written)),
    {
        let ctx = text::cat3("collector ", name, ": ");
        match validate_regex(
            ctx.as_str(),
            "invalid disk-devices regex: ",
            config.disk_devices.as_str(),
            written,
        ) {
            Ok(_) => {},
            Err(e) => {
                return Err(e);
            },
        }
        match validate_regex(
            ctx.as_str(),
            "invalid net-devices regex: ",
            config.net_devices.as_str(),
            written,
        ) {
            Ok(_) => {},
            Err(e) => {
                return Err(e);
            },
        }
        match validate_regex(
            ctx.as_str(),
            "invalid filesystem-mount-points regex: ",
            config.filesystem_mount_points.as_str(),
            written,
        ) {
            Ok(_) => {},
            Err(e) => {
                return Err(e);
            },
        }
        match validate_regex(
            ctx.as_str(),
            "invalid filesystem-fs-types regex: ",
            config.filesystem_fs_types.as_str(),
            written,
        ) {
            Ok(_) => {},
            Err(e) => {
                return Err(e);
            },
        }
        match validate_regex(
            ctx.as_str(),
            "invalid hwmon-chips regex: ",
            config.hwmon_chips.as_str(),
            written,
        ) {
            Ok(_) => {},
            Err(e) => {
                return Err(e);
            },
        }
        validate_sub_collectors(ctx.as_str(), &config.collectors, written)
    }

    /// Checks the address, the credentials and the TLS settings of a collector.
    pub fn validate_prometheus_collector(
        name: &str,
        config: &PrometheusCollectorConfig,
    ) -> (r: Result<()>)
        ensures
            reports(r, config.fault(name@)),
    {
        let ctx = text::cat2("collector ", name);
        if text::chars_of(config.url.as_str()).len() == 0 {
            return Err(Error::Config(text::cat2(ctx.as_str(), ": url must not be empty")));
        }
        match config.auth.validate(ctx.as_str()) {
            Ok(_) => {},
            Err(e) => {
                return Err(e);
            },
        }
        config.tls.validate(ctx.as_str())
    }

    /// Checks the address, the credentials, the TLS settings and the limits of a forwarder.
    pub fn validate_otlphttp_forwarder(name: &str, config: &OtlphttpForwarderConfig) -> (r: Result<
        (),
    >)
        ensures
            reports(r, config.fault(name@)),
    {
        let ctx = text::cat2("forwarder ", name);
        if text::chars_of(config.endpoint.as_str()).len() == 0 {
            return Err(Error::Config(text::cat2(ctx.as_str(), ": endpoint must not be empty")));
        }
        match config.auth.validate(ctx.as_str()) {
            Ok(_) => {},
            Err(e) => {
                return Err(e);
            },
        }
        match config.tls.validate(ctx.as_str()) {
            Ok(_) => {},
            Err(e) => {
                return Err(e);
            },
        }
        if config.buffer_max_metrics == 0 {
            return Err(
                Error::Config(
                    text::cat2(ctx.as_str(), ": buffer-max-metrics must be greater than 0"),
                ),
            );
        }
        if config.request_max_metrics == 0 {
            return Err(
                Error::Config(
                    text::cat2(ctx.as_str(), ": request-max-metrics must be greater than 0"),
                ),
            );
        }
        if config.backoff_initial.exceeds(config.backoff_max) {
            return Err(
                Error::Config(
                    text::cat2(ctx.as_str(), ": backoff-initial must not exceed backoff-max"),
                ),
            );
        }
        Ok(())
    }
}

// Laws

/// A key needs a certificate, and nothing else is asked of the settings.
pub proof fn a_key_needs_a_certificate(c: TlsConfig, ctx: Seq<char>)
    ensures
        c.fault(ctx) is None <==> (c.client_key_file is Some ==> c.client_cert_file is Some),
        c.fault(ctx) matches Some(m) ==> m == ctx
            + ": client-key-file is set but client-cert-file is not"@,
{
}

/// Credentials are valid where they are of one kind, the user has a password and the password a
/// user, and no secret is given twice.
pub proof fn credentials_are_of_one_kind(c: AuthConfig, ctx: Seq<char>)
    ensures
        ({
            let user = c.username is Some || c.password is Some || c.password_file is Some;
            let token = c.bearer_token is Some || c.bearer_token_file is Some;
            let header = c.authorization is Some;
            let kinds = (if user {
                1int
            } else {
                0
            }) + (if token {
                1int
            } else {
                0
            }) + (if header {
                1int
            } else {
                0
            });
            let passwords = (if c.password is Some {
                1int
            } else {
                0
            }) + (if c.password_file is Some {
                1int
            } else {
                0
            });
            &&& c.fault(ctx) is None <==> {
                &&& kinds <= 1
                &&& c.username is Some ==> passwords == 1
                &&& c.username is None ==> passwords == 0
                &&& !(c.bearer_token is Some && c.bearer_token_file is Some)
            }
            &&& kinds > 1 ==> c.fault(ctx) == Some(
                ctx
                    + ": multiple auth methods configured; pick one of username/password[-file], bearer-token[-file], or authorization"@,
            )
            &&& kinds == 1 && passwords == 2 ==> c.fault(ctx) == Some(
                ctx + ": password and password-file are mutually exclusive"@,
            )
            &&& kinds == 1 && c.bearer_token is Some && c.bearer_token_file is Some ==> c.fault(ctx)
                == Some(ctx + ": bearer-token and bearer-token-file are mutually exclusive"@)
            &&& kinds == 1 && c.username is Some && passwords == 0 ==> c.fault(ctx) == Some(
                ctx + ": username set but no password / password-file"@,
            )
            &&& kinds == 1 && c.username is None && passwords == 1 ==> c.fault(ctx) == Some(
                ctx + ": password / password-file set but no username"@,
            )
        }),
{
}

/// An expression is in order: it compiles, or it holds a placeholder and is looked at as it is
/// written.
pub open spec fn in_order(regex: Seq<char>, written: bool) -> bool {
    pattern::compiled(regex) is Ok || (written && text::holds(regex, "${"@))
}

/// The sub-collectors are the nine of the host, in the order in which they run by default.
pub proof fn there_are_nine_sub_collectors(name: Seq<char>)
    ensures
        sub_collectors().contains(name) <==> (name == "cpu"@
            || name == "memory"@
            || name == "disk"@
            || name == "filesystem"@
            || name == "md"@
            || name == "hwmon"@
            || name == "netdev"@
            || name == "loadavg"@
            || name == "uname"@),
        sub_collectors() == seq![
            "cpu"@,
            "memory"@,
            "disk"@,
            "filesystem"@,
            "md"@,
            "hwmon"@,
            "netdev"@,
            "loadavg"@,
            "uname"@,
        ],
{
    let s = sub_collectors();
    assert(s[0] == "cpu"@);
    assert(s[1] == "memory"@);
    assert(s[2] == "disk"@);
    assert(s[3] == "filesystem"@);
    assert(s[4] == "md"@);
    assert(s[5] == "hwmon"@);
    assert(s[6] == "netdev"@);
    assert(s[7] == "loadavg"@);
    assert(s[8] == "uname"@);
    if sub_collectors().contains(name) {
        let i = choose|i: int| 0 <= i < s.len() && s[i] == name;
        assert(s[i] == name);
    }
}

/// Sub-collectors are in order where each is known, or holds a placeholder and is looked at as it
/// is written; otherwise the first one that is not is named.
pub proof fn unknown_sub_collectors_are_named(
    ctx: Seq<char>,
    known: Seq<Seq<char>>,
    name: Seq<char>,
    rest: Seq<Seq<char>>,
    written: bool,
)
    requires
        forall|i: int|
            0 <= i < known.len() ==> sub_collectors().contains(#[trigger] known[i]) || (written
                && text::holds(known[i], "${"@)),
    ensures
        unknown_sub_collector(ctx, known, written) is None,
        !sub_collectors().contains(name) && !(written && text::holds(name, "${"@))
            ==> unknown_sub_collector(ctx, known.push(name) + rest, written) == Some(
            ctx + "unknown sub-collector '"@ + name + "'"@,
        ),
    decreases known.len(),
{
    let all = known.push(name) + rest;
    if known.len() > 0 {
        assert(all[0] == known[0]);
        assert(all.drop_first() =~= known.drop_first().push(name) + rest);
        assert forall|i: int| 0 <= i < known.drop_first().len() implies sub_collectors().contains(
            #[trigger] known.drop_first()[i],
        ) || (written && text::holds(known.drop_first()[i], "${"@)) by {
            assert(known.drop_first()[i] == known[i + 1]);
        }
        unknown_sub_collectors_are_named(ctx, known.drop_first(), name, rest, written);
    } else {
        assert(all[0] == name);
    }
}

proof fn each_is_known(ctx: Seq<char>, names: Seq<Seq<char>>, written: bool)
    ensures
        unknown_sub_collector(ctx, names, written) is None <==> forall|i: int|
            0 <= i < names.len() ==> sub_collectors().contains(#[trigger] names[i]) || (written
                && text::holds(names[i], "${"@)),
    decreases names.len(),
{
    if names.len() > 0 {
        let rest = names.drop_first();
        each_is_known(ctx, rest, written);
        if unknown_sub_collector(ctx, names, written) is None {
            assert forall|i: int| 0 <= i < names.len() implies sub_collectors().contains(
                #[trigger] names[i],
            ) || (written && text::holds(names[i], "${"@)) by {
                if i > 0 {
                    assert(rest[i - 1] == names[i]);
                }
            }
        } else if forall|i: int|
            0 <= i < names.len() ==> sub_collectors().contains(#[trigger] names[i]) || (written
                && text::holds(names[i], "${"@)) {
            assert forall|i: int| 0 <= i < rest.len() implies sub_collectors().contains(
                #[trigger] rest[i],
            ) || (written && text::holds(rest[i], "${"@)) by {
                assert(rest[i] == names[i + 1]);
            }
            assert(sub_collectors().contains(names[0]) || (written && text::holds(
                names[0],
                "${"@,
            )));
        }
    }
}

/// A collector of the host is valid where each of its expressions is in order and each of its
/// sub-collectors is known.
pub proof fn a_host_is_valid(c: UnixCollectorConfig, name: Seq<char>, written: bool)
    ensures
        c.faults(name, written) is None <==> {
            &&& in_order(c.disk_devices@, written)
            &&& in_order(c.net_devices@, written)
            &&& in_order(c.filesystem_mount_points@, written)
            &&& in_order(c.filesystem_fs_types@, written)
            &&& in_order(c.hwmon_chips@, written)
            &&& forall|i: int|
                0 <= i < c.collectors@.len() ==> sub_collectors().contains(
                    (#[trigger] c.collectors@[i])@,
                ) || (written && text::holds(c.collectors@[i]@, "${"@))
        },
        c.fault(name) == c.faults(name, true),
        c.resolved_fault(name) == c.faults(name, false),
{
    let ctx = "collector "@ + name + ": "@;
    let names = text::texts(c.collectors@);
    each_is_known(ctx, names, written);
    assert(names.len() == c.collectors@.len());
    assert forall|i: int| 0 <= i < names.len() implies #[trigger] names[i] == c.collectors@[i]@ by {}
    if forall|i: int|
        0 <= i < c.collectors@.len() ==> sub_collectors().contains((#[trigger] c.collectors@[i])@)
            || (written && text::holds(c.collectors@[i]@, "${"@)) {
        assert forall|i: int| 0 <= i < names.len() implies sub_collectors().contains(
            #[trigger] names[i],
        ) || (written && text::holds(names[i], "${"@)) by {
            assert(names[i] == c.collectors@[i]@);
        }
    }
    if unknown_sub_collector(ctx, names, written) is None {
        assert forall|i: int| 0 <= i < c.collectors@.len() implies sub_collectors().contains(
            (#[trigger] c.collectors@[i])@,
        ) || (written && text::holds(c.collectors@[i]@, "${"@)) by {
            assert(names[i] == c.collectors@[i]@);
        }
    }
}

/// The first expression that does not compile is named, with what is wrong with it: those of the
/// disks, the network interfaces, the mount points, the types of filesystems and the sensor chips,
/// in this order.
pub proof fn the_first_bad_expression_is_named(c: UnixCollectorConfig, name: Seq<char>, written: bool)
    ensures
        ({
            let ctx = "collector "@ + name + ": "@;
            &&& !in_order(c.disk_devices@, written) ==> c.faults(name, written)
                == Some(
                ctx + "invalid disk-devices regex: "@ + pattern::compiled(c.disk_devices@)->Err_0,
            )
            &&& in_order(c.disk_devices@, written) && !in_order(c.net_devices@, written) ==> c.faults(name, written)
                == Some(
                ctx + "invalid net-devices regex: "@ + pattern::compiled(c.net_devices@)->Err_0,
            )
            &&& in_order(c.disk_devices@, written) && in_order(c.net_devices@, written) && !in_order(c.filesystem_mount_points@, written) ==> c.faults(name, written)
                == Some(
                ctx + "invalid filesystem-mount-points regex: "@ + pattern::compiled(c.filesystem_mount_points@)->Err_0,
            )
            &&& in_order(c.disk_devices@, written) && in_order(c.net_devices@, written) && in_order(c.filesystem_mount_points@, written) && !in_order(c.filesystem_fs_types@, written) ==> c.faults(name, written)
                == Some(
                ctx + "invalid filesystem-fs-types regex: "@ + pattern::compiled(c.filesystem_fs_types@)->Err_0,
            )
            &&& in_order(c.disk_devices@, written) && in_order(c.net_devices@, written) && in_order(c.filesystem_mount_points@, written) && in_order(c.filesystem_fs_types@, written) && !in_order(c.hwmon_chips@, written) ==> c.faults(name, written)
                == Some(
                ctx + "invalid hwmon-chips regex: "@ + pattern::compiled(c.hwmon_chips@)->Err_0,
            )
        }),
{
}

/// A scraper is valid where it has an address, and its credentials and its TLS settings are valid.
pub proof fn a_scraper_is_valid(c: PrometheusCollectorConfig, name: Seq<char>)
    ensures
        ({
            let ctx = "collector "@ + name;
            &&& c.fault(name) is None <==> c.url@.len() > 0 && c.auth.fault(ctx) is None
                && c.tls.fault(ctx) is None
            &&& c.url@.len() == 0 ==> c.fault(name) == Some(ctx + ": url must not be empty"@)
            &&& c.url@.len() > 0 && c.auth.fault(ctx) is Some ==> c.fault(name) == c.auth.fault(ctx)
            &&& c.url@.len() > 0 && c.auth.fault(ctx) is None ==> c.fault(name) == c.tls.fault(ctx)
        }),
{
}

/// A forwarder is valid where it has an address, its credentials and its TLS settings are valid,
/// it may hold and send some metrics, and its first pause is no longer than its longest.
pub proof fn a_forwarder_is_valid(c: OtlphttpForwarderConfig, name: Seq<char>)
    ensures
        ({
            let ctx = "forwarder "@ + name;
            let reached = c.endpoint@.len() > 0 && c.auth.fault(ctx) is None && c.tls.fault(ctx) is None;
            &&& c.fault(name) is None <==> reached && c.buffer_max_metrics > 0
                && c.request_max_metrics > 0 && c.backoff_initial@ <= c.backoff_max@
            &&& c.endpoint@.len() == 0 ==> c.fault(name) == Some(
                ctx + ": endpoint must not be empty"@,
            )
            &&& c.endpoint@.len() > 0 && c.auth.fault(ctx) is Some ==> c.fault(name) == c.auth.fault(
                ctx,
            )
            &&& c.endpoint@.len() > 0 && c.auth.fault(ctx) is None && c.tls.fault(ctx) is Some
                ==> c.fault(name) == c.tls.fault(ctx)
            &&& reached && c.buffer_max_metrics == 0 ==> c.fault(name) == Some(
                ctx + ": buffer-max-metrics must be greater than 0"@,
            )
            &&& reached && c.buffer_max_metrics > 0 && c.request_max_metrics == 0 ==> c.fault(name)
                == Some(ctx + ": request-max-metrics must be greater than 0"@)
            &&& reached && c.buffer_max_metrics > 0 && c.request_max_metrics > 0
                && c.backoff_initial@ > c.backoff_max@ ==> c.fault(name) == Some(
                ctx + ": backoff-initial must not exceed backoff-max"@,
            )
        }),
{
}

/// A shipper is valid where its first pause is no longer than its longest, and the credentials and
/// the TLS settings of its sink are valid.
pub proof fn a_shipper_is_valid(c: ShipperConfig, name: Seq<char>)
    ensures
        c.sink matches LogSinkConfig::Loki(k) ==> {
            let ctx = "shipper "@ + name + " sink"@;
            &&& c.fault(name) is None <==> c.backoff_initial@ <= c.backoff_max@ && k.auth.fault(ctx) is None
                && k.tls.fault(ctx) is None
            &&& c.backoff_initial@ > c.backoff_max@ ==> c.fault(name) == Some(
                "shipper "@ + name + ": backoff-initial must not exceed backoff-max"@,
            )
            &&& c.backoff_initial@ <= c.backoff_max@ && k.auth.fault(ctx) is Some ==> c.fault(name)
                == k.auth.fault(ctx)
            &&& c.backoff_initial@ <= c.backoff_max@ && k.auth.fault(ctx) is None ==> c.fault(name)
                == k.tls.fault(ctx)
        },
{
}

/// What is wrong with some collectors is what is wrong with the first one that is not valid.
pub proof fn the_first_of_collectors_is_named(c: Seq<(String, CollectorConfig)>, i: int)
    requires
        0 <= i <= c.len(),
        forall|k: int| 0 <= k < i ==> (#[trigger] c[k]).1.fault(c[k].0@) is None,
        i < c.len() ==> c[i].1.fault(c[i].0@) is Some,
    ensures
        i == c.len() ==> collectors_fault(c) is None,
        i < c.len() ==> collectors_fault(c) == c[i].1.fault(c[i].0@),
    decreases c.len(),
{
    if c.len() > 0 {
        let d = c.drop_last();
        assert(forall|k: int| 0 <= k < d.len() ==> #[trigger] d[k] == c[k]);
        assert(c.last() == c[c.len() - 1]);
        if i < c.len() {
            if i < d.len() {
                assert(d[i] == c[i]);
            }
            the_first_of_collectors_is_named(d, i);
        } else {
            the_first_of_collectors_is_named(d, i - 1);
        }
    }
}

/// What is wrong with some forwarders is what is wrong with the first one that is not valid.
pub proof fn the_first_of_forwarders_is_named(c: Seq<(String, ForwarderConfig)>, i: int)
    requires
        0 <= i <= c.len(),
        forall|k: int| 0 <= k < i ==> (#[trigger] c[k]).1.fault(c[k].0@) is None,
        i < c.len() ==> c[i].1.fault(c[i].0@) is Some,
    ensures
        i == c.len() ==> forwarders_fault(c) is None,
        i < c.len() ==> forwarders_fault(c) == c[i].1.fault(c[i].0@),
    decreases c.len(),
{
    if c.len() > 0 {
        let d = c.drop_last();
        assert(forall|k: int| 0 <= k < d.len() ==> #[trigger] d[k] == c[k]);
        assert(c.last() == c[c.len() - 1]);
        if i < c.len() {
            if i < d.len() {
                assert(d[i] == c[i]);
            }
            the_first_of_forwarders_is_named(d, i);
        } else {
            the_first_of_forwarders_is_named(d, i - 1);
        }
    }
}

/// What is wrong with some shippers is what is wrong with the first one that is not valid.
pub proof fn the_first_of_shippers_is_named(c: Seq<(String, ShipperConfig)>, i: int)
    requires
        0 <= i <= c.len(),
        forall|k: int| 0 <= k < i ==> (#[trigger] c[k]).1.fault(c[k].0@) is None,
        i < c.len() ==> c[i].1.fault(c[i].0@) is Some,
    ensures
        i == c.len() ==> shippers_fault(c) is None,
        i < c.len() ==> shippers_fault(c) == c[i].1.fault(c[i].0@),
    decreases c.len(),
{
    if c.len() > 0 {
        let d = c.drop_last();
        assert(forall|k: int| 0 <= k < d.len() ==> #[trigger] d[k] == c[k]);
        assert(c.last() == c[c.len() - 1]);
        if i < c.len() {
            if i < d.len() {
                assert(d[i] == c[i]);
            }
            the_first_of_shippers_is_named(d, i);
        } else {
            the_first_of_shippers_is_named(d, i - 1);
        }
    }
}

/// What is wrong with some resolved collectors is what is wrong with the first one that is not valid.
pub proof fn the_first_of_resolved_collectors_is_named(c: Seq<(String, CollectorConfig)>, i: int)
    requires
        0 <= i <= c.len(),
        forall|k: int| 0 <= k < i ==> (#[trigger] c[k]).1.resolved_fault(c[k].0@) is None,
        i < c.len() ==> c[i].1.resolved_fault(c[i].0@) is Some,
    ensures
        i == c.len() ==> resolved_collectors_fault(c) is None,
        i < c.len() ==> resolved_collectors_fault(c) == c[i].1.resolved_fault(c[i].0@),
    decreases c.len(),
{
    if c.len() > 0 {
        let d = c.drop_last();
        assert(forall|k: int| 0 <= k < d.len() ==> #[trigger] d[k] == c[k]);
        assert(c.last() == c[c.len() - 1]);
        if i < c.len() {
            if i < d.len() {
                assert(d[i] == c[i]);
            }
            the_first_of_resolved_collectors_is_named(d, i);
        } else {
            the_first_of_resolved_collectors_is_named(d, i - 1);
        }
    }
}

/// A configuration is valid where it has a name, some collector and some forwarder, and each of
/// its collectors, forwarders and shippers is valid; once its placeholders are replaced, its
/// collectors are valid without them, too.
pub proof fn a_configuration_is_valid(c: Config)
    ensures
        c.fault() is None <==> {
            &&& c.instance.name@.len() > 0
            &&& c.metrics.collectors@.len() > 0
            &&& c.metrics.forwarders@.len() > 0
            &&& collectors_fault(c.metrics.collectors@) is None
            &&& forwarders_fault(c.metrics.forwarders@) is None
            &&& shippers_fault(c.logs.shippers@) is None
        },
        c.resolved_fault() is None <==> c.fault() is None && resolved_collectors_fault(
            c.metrics.collectors@,
        ) is None,
        c.fault() is Some ==> c.resolved_fault() == c.fault(),
        c.instance.name@.len() == 0 ==> c.fault() == Some("instance.name must not be empty"@),
        c.instance.name@.len() > 0 && c.metrics.collectors@.len() == 0 ==> c.fault() == Some(
            "at least one collector must be configured"@,
        ),
        c.instance.name@.len() > 0 && c.metrics.collectors@.len() > 0 && c.metrics.forwarders@.len()
            == 0 ==> c.fault() == Some("at least one forwarder must be configured"@),
{
}

/// A collector, and a forwarder, is checked as what it is.
pub proof fn each_kind_is_checked_as_such(c: CollectorConfig, f: ForwarderConfig, name: Seq<char>)
    ensures
        c matches CollectorConfig::Unix(u) ==> c.fault(name) == u.faults(name, true)
            && c.resolved_fault(name) == u.faults(name, false),
        c matches CollectorConfig::Prometheus(p) ==> c.fault(name) == p.fault(name)
            && c.resolved_fault(name) is None,
        f matches ForwarderConfig::Otlphttp(o) ==> f.fault(name) == o.fault(name),
{
}

} // verus!
