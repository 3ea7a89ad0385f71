//! Loading a configuration: reading it, checking it and replacing its placeholders.
use vstd::prelude::*;

use crate::config;
use crate::config::placeholder::{self, Environment};
use crate::config::resolve;
use crate::config::{
    AuthConfig, CollectorConfig, Config, ForwarderConfig, LogSinkConfig, LogSourceConfig,
    PrometheusCollectorConfig, ShipperConfig, TlsConfig, UnixCollectorConfig,
};
use crate::error::{Error, Result};
use crate::labels::Labels;
use crate::text;

verus! {

/// What came of reading a configuration file.
pub enum Parsed {
    /// The file could not be read, for a reason.
    Unreadable(String),
    /// The file holds no configuration, for a reason.
    Malformed(String),
    /// The file holds a configuration.
    Read(Config),
}

impl Config {
    /// What is wrong with a configuration file at a path.
    pub open spec fn load_fault(path: Seq<char>, parsed: Parsed) -> Option<Seq<char>> {
        match parsed {
            Parsed::Unreadable(e) => Some("failed to read "@ + path + ": "@ + e@),
            Parsed::Malformed(e) => Some("failed to parse config: "@ + e@),
            Parsed::Read(c) => c.fault(),
        }
    }

    /// Checks a configuration file, without replacing placeholders: whoever checks a
    /// configuration from a shell does not have the environment of the service, and the
    /// configuration may be well-formed all the same.
    pub fn load_unresolved(path: &str, parsed: Parsed) -> (r: Result<Config>)
        ensures
            match r {
                Ok(c) => parsed == Parsed::Read(c) && c.fault() is None,
                Err(e) => Self::load_fault(path@, parsed) matches Some(m) && e.is_config(m),
            },
    {
        match parsed {
            Parsed::Unreadable(e) => Err(
                Error::Config(text::cat4("failed to read ", path, ": ", e.as_str())),
            ),
            Parsed::Malformed(e) => Err(
                Error::Config(text::cat2("failed to parse config: ", e.as_str())),
            ),
            Parsed::Read(c) => match c.validate() {
                Ok(_) => Ok(c),
                Err(e) => Err(e),
            },
        }
    }

    /// What comes of a configuration that is checked, whose placeholders are replaced, and
    /// which is then checked again: its first fault, the first text that cannot be expanded,
    /// the first fault that shows once the placeholders are replaced, or the configuration
    /// without its placeholders.
    pub open spec fn loaded(self, r: Result<Config>, env: Environment) -> bool {
        match (self.fault(), resolve::expand_all(self.values(), self.instance.name@, env)) {
            (Some(m), _) => r matches Err(e) && e.is_config(m),
            (None, Err(m)) => r matches Err(e) && e.is_config(m),
            (None, Ok(_)) => match r {
                Ok(c) => self.expands_to(c, env) && c.resolved_fault() is None,
                Err(e) => exists|c: Config|
                    #[trigger] self.expands_to(c, env) && (c.resolved_fault() matches Some(m)
                        && e.is_config(m)),
            },
        }
    }

    /// Checks a configuration file, replaces the placeholders and checks the expressions and
    /// the sub-collectors that had held some.
    pub fn load(path: &str, parsed: Parsed, env: &Environment) -> (r: Result<Config>)
        ensures
            match parsed {
                Parsed::Read(c) => c.loaded(r, *env),
                _ => Self::load_fault(path@, parsed) matches Some(m) && (r matches Err(e)
                    && e.is_config(m)),
            },
            r matches Ok(c) ==> c.fault() is None && c.resolved_fault() is None,
    {
        match Self::load_unresolved(path, parsed) {
            Ok(c) => match c.resolve_placeholders(env) {
                Ok(resolved) => match resolved.validate_resolved() {
                    Ok(_) => Ok(resolved),
                    Err(e) => {
                        assert(c.expands_to(resolved, *env));
                        Err(e)
                    },
                },
                Err(e) => Err(e),
            },
            Err(e) => Err(e),
        }
    }
}

/// Replacing placeholders leaves valid credentials and TLS settings valid: what is set
/// stays set, and nothing else is.
pub proof fn resolving_keeps_credentials_valid(
    auth: AuthConfig,
    resolved_auth: AuthConfig,
    tls: TlsConfig,
    resolved_tls: TlsConfig,
    name: Seq<char>,
    env: Environment,
    ctx: Seq<char>,
)
    requires
        auth.expands_to(resolved_auth, name, env),
        tls.expands_to(resolved_tls, name, env),
    ensures
        auth.fault(ctx) == resolved_auth.fault(ctx),
        tls.fault(ctx) == resolved_tls.fault(ctx),
{
}

/// Replacing placeholders leaves every name as it is: names that are distinct stay so.
pub proof fn resolving_keeps_names_distinct(c: Config, resolved: Config, env: Environment)
    requires
        c.expands_to(resolved, env),
        c.names_are_distinct(),
    ensures
        resolved.names_are_distinct(),
{
    let (a, b) = (c.metrics.collectors@, resolved.metrics.collectors@);
    assert(forall|i: int| 0 <= i < a.len() ==> (#[trigger] b[i]).0@ == a[i].0@);
    let (a, b) = (c.metrics.forwarders@, resolved.metrics.forwarders@);
    assert(forall|i: int| 0 <= i < a.len() ==> (#[trigger] b[i]).0@ == a[i].0@);
    let (a, b) = (c.logs.shippers@, resolved.logs.shippers@);
    assert(forall|i: int| 0 <= i < a.len() ==> (#[trigger] b[i]).0@ == a[i].0@);
}

/// A configuration is loaded or refused for what it says and what the environment holds: the
/// faults that show once the placeholders are replaced are the same each time.
pub proof fn resolving_decides_the_faults(
    c: Config,
    once: Config,
    again: Config,
    env: Environment,
)
    requires
        c.expands_to(once, env),
        c.expands_to(again, env),
    ensures
        once.fault() == again.fault(),
        once.resolved_fault() == again.resolved_fault(),
{
    let name = c.instance.name@;
    same_collectors(
        c.metrics.collectors@,
        once.metrics.collectors@,
        again.metrics.collectors@,
        name,
        env,
    );
    same_forwarders(
        c.metrics.forwarders@,
        once.metrics.forwarders@,
        again.metrics.forwarders@,
        name,
        env,
    );
    same_shippers(c.logs.shippers@, once.logs.shippers@, again.logs.shippers@, name, env);
}

proof fn same_collectors(
    c: Seq<(String, CollectorConfig)>,
    a: Seq<(String, CollectorConfig)>,
    b: Seq<(String, CollectorConfig)>,
    name: Seq<char>,
    env: Environment,
)
    requires
        resolve::collectors_expand(c, a, name, env),
        resolve::collectors_expand(c, b, name, env),
    ensures
        config::collectors_fault(a) == config::collectors_fault(b),
        config::resolved_collectors_fault(a) == config::resolved_collectors_fault(b),
    decreases c.len(),
{
    if c.len() > 0 {
        let n = c.len() - 1;
        let p = c.drop_last();
        assert forall|i: int| 0 <= i < p.len() implies (#[trigger] p[i]).0@ == a.drop_last()[i].0@
            && p[i].1.expands_to(a.drop_last()[i].1, name, env) && p[i].0@ == b.drop_last()[i].0@
            && p[i].1.expands_to(b.drop_last()[i].1, name, env) by {
            assert(p[i] == c[i]);
        }
        same_collectors(p, a.drop_last(), b.drop_last(), name, env);
        assert(c[n].0@ == a[n].0@ && c[n].0@ == b[n].0@);
        same_collector(c[n].1, a[n].1, b[n].1, a[n].0@, name, env);
    }
}

proof fn same_collector(
    c: CollectorConfig,
    a: CollectorConfig,
    b: CollectorConfig,
    of: Seq<char>,
    name: Seq<char>,
    env: Environment,
)
    requires
        c.expands_to(a, name, env),
        c.expands_to(b, name, env),
    ensures
        a.fault(of) == b.fault(of),
        a.resolved_fault(of) == b.resolved_fault(of),
{
    match (c, a, b) {
        (CollectorConfig::Unix(u), CollectorConfig::Unix(x), CollectorConfig::Unix(y)) => {
            let (t, p, q) = (
                text::texts(u.collectors@),
                text::texts(x.collectors@),
                text::texts(y.collectors@),
            );
            assert forall|i: int| 0 <= i < p.len() implies p[i] == q[i] by {
                assert(resolve::text_expands(t[i], p[i], name, env));
            }
            assert(p =~= q);
        },
        _ => {},
    }
}

proof fn same_forwarders(
    c: Seq<(String, ForwarderConfig)>,
    a: Seq<(String, ForwarderConfig)>,
    b: Seq<(String, ForwarderConfig)>,
    name: Seq<char>,
    env: Environment,
)
    requires
        resolve::forwarders_expand(c, a, name, env),
        resolve::forwarders_expand(c, b, name, env),
    ensures
        config::forwarders_fault(a) == config::forwarders_fault(b),
    decreases c.len(),
{
    if c.len() > 0 {
        let n = c.len() - 1;
        let p = c.drop_last();
        assert forall|i: int| 0 <= i < p.len() implies (#[trigger] p[i]).0@ == a.drop_last()[i].0@
            && p[i].1.expands_to(a.drop_last()[i].1, name, env) && p[i].0@ == b.drop_last()[i].0@
            && p[i].1.expands_to(b.drop_last()[i].1, name, env) by {
            assert(p[i] == c[i]);
        }
        same_forwarders(p, a.drop_last(), b.drop_last(), name, env);
        assert(c[n].0@ == a[n].0@ && c[n].0@ == b[n].0@);
    }
}

proof fn same_shippers(
    c: Seq<(String, ShipperConfig)>,
    a: Seq<(String, ShipperConfig)>,
    b: Seq<(String, ShipperConfig)>,
    name: Seq<char>,
    env: Environment,
)
    requires
        resolve::shippers_expand(c, a, name, env),
        resolve::shippers_expand(c, b, name, env),
    ensures
        config::shippers_fault(a) == config::shippers_fault(b),
    decreases c.len(),
{
    if c.len() > 0 {
        let n = c.len() - 1;
        let p = c.drop_last();
        assert forall|i: int| 0 <= i < p.len() implies (#[trigger] p[i]).0@ == a.drop_last()[i].0@
            && p[i].1.expands_to(a.drop_last()[i].1, name, env) && p[i].0@ == b.drop_last()[i].0@
            && p[i].1.expands_to(b.drop_last()[i].1, name, env) by {
            assert(p[i] == c[i]);
        }
        same_shippers(p, a.drop_last(), b.drop_last(), name, env);
        assert(c[n].0@ == a[n].0@ && c[n].0@ == b[n].0@);
    }
}

// Settings after loading

/// A text of a loaded configuration is what was written, with its placeholders replaced.
pub open spec fn as_written(a: String, b: String, name: Seq<char>, env: Environment) -> bool {
    placeholder::expanded(a@, name, env) == Ok::<Seq<char>, Seq<char>>(b@)
}

/// An optional text of a loaded configuration is there as it was written.
pub open spec fn set_as_written(
    a: Option<String>,
    b: Option<String>,
    name: Seq<char>,
    env: Environment,
) -> bool {
    match a {
        Some(x) => b matches Some(y) && as_written(x, y, name, env),
        None => b is None,
    }
}

/// The labels of a loaded configuration have the names that were written, and their values.
pub open spec fn labelled_as_written(
    a: Labels,
    b: Labels,
    name: Seq<char>,
    env: Environment,
) -> bool {
    &&& a.listing().len() == b.listing().len()
    &&& forall|i: int|
        0 <= i < a.listing().len() ==> (#[trigger] b.listing()[i]).0 == a.listing()[i].0
            && placeholder::expanded(a.listing()[i].1, name, env) == Ok::<Seq<char>, Seq<char>>(
            b.listing()[i].1,
        )
}

/// Credentials and certificates as they were written.
pub open spec fn access_as_written(
    a: (AuthConfig, TlsConfig),
    b: (AuthConfig, TlsConfig),
    name: Seq<char>,
    env: Environment,
) -> bool {
    &&& set_as_written(a.0.username, b.0.username, name, env)
    &&& set_as_written(a.0.password, b.0.password, name, env)
    &&& set_as_written(a.0.password_file, b.0.password_file, name, env)
    &&& set_as_written(a.0.bearer_token, b.0.bearer_token, name, env)
    &&& set_as_written(a.0.bearer_token_file, b.0.bearer_token_file, name, env)
    &&& set_as_written(a.0.authorization, b.0.authorization, name, env)
    &&& set_as_written(a.1.client_cert_file, b.1.client_cert_file, name, env)
    &&& set_as_written(a.1.client_key_file, b.1.client_key_file, name, env)
    &&& set_as_written(a.1.ca_cert_file, b.1.ca_cert_file, name, env)
}

/// How often a collector runs, and how long it may take.
pub open spec fn timing(c: CollectorConfig) -> (nat, nat) {
    match c {
        CollectorConfig::Unix(u) => (u.interval@, u.max_runtime@),
        CollectorConfig::Prometheus(p) => (p.interval@, p.max_runtime@),
    }
}

/// A collector that was loaded runs as often, and may take as long, as was written for it, at
/// every position.
pub proof fn loaded_collectors_keep_their_timing(c: Config, r: Result<Config>, env: Environment, i: int)
    requires
        c.loaded(r, env),
        r is Ok,
        0 <= i < c.metrics.collectors@.len(),
    ensures
        r->Ok_0.metrics.collectors@.len() == c.metrics.collectors@.len(),
        r->Ok_0.metrics.collectors@[i].0@ == c.metrics.collectors@[i].0@,
        timing(r->Ok_0.metrics.collectors@[i].1) == timing(c.metrics.collectors@[i].1),
        c.metrics.collectors@[i].1 matches CollectorConfig::Unix(a) ==> (
        r->Ok_0.metrics.collectors@[i].1 matches CollectorConfig::Unix(b) && b.interval == a.interval
            && b.max_runtime == a.max_runtime),
        c.metrics.collectors@[i].1 matches CollectorConfig::Prometheus(a) ==> (
        r->Ok_0.metrics.collectors@[i].1 matches CollectorConfig::Prometheus(b) && b.interval
            == a.interval && b.max_runtime == a.max_runtime && b.scrape_timeout
            == a.scrape_timeout),
{
    assert(c.metrics.collectors@[i].1.expands_to(
        r->Ok_0.metrics.collectors@[i].1,
        c.instance.name@,
        env,
    ));
}

/// A collector of the host that was loaded has the filters, the parts and the labels that were
/// written for it, each in its place.
pub proof fn a_loaded_host_is_as_written(
    c: Config,
    r: Result<Config>,
    env: Environment,
    i: int,
    a: UnixCollectorConfig,
)
    requires
        c.loaded(r, env),
        r is Ok,
        0 <= i < c.metrics.collectors@.len(),
        c.metrics.collectors@[i].1 == CollectorConfig::Unix(a),
    ensures
        r->Ok_0.metrics.collectors@[i].1 matches CollectorConfig::Unix(b) && {
            let name = c.instance.name@;
            &&& as_written(a.disk_devices, b.disk_devices, name, env)
            &&& as_written(a.net_devices, b.net_devices, name, env)
            &&& as_written(a.filesystem_mount_points, b.filesystem_mount_points, name, env)
            &&& as_written(a.filesystem_fs_types, b.filesystem_fs_types, name, env)
            &&& as_written(a.hwmon_chips, b.hwmon_chips, name, env)
            &&& b.filesystem_dedupe_devices == a.filesystem_dedupe_devices
            &&& b.collectors@.len() == a.collectors@.len()
            &&& forall|k: int|
                0 <= k < a.collectors@.len() ==> as_written(
                    #[trigger] a.collectors@[k],
                    b.collectors@[k],
                    name,
                    env,
                )
            &&& labelled_as_written(a.static_labels, b.static_labels, name, env)
        },
{
    let name = c.instance.name@;
    assert(c.metrics.collectors@[i].1.expands_to(r->Ok_0.metrics.collectors@[i].1, name, env));
    match r->Ok_0.metrics.collectors@[i].1 {
        CollectorConfig::Unix(b) => {
            assert forall|k: int| 0 <= k < a.collectors@.len() implies as_written(
                #[trigger] a.collectors@[k],
                b.collectors@[k],
                name,
                env,
            ) by {
                assert(text::texts(a.collectors@)[k] == a.collectors@[k]@);
                assert(text::texts(b.collectors@)[k] == b.collectors@[k]@);
            }
            labels_are_as_written(a.static_labels, b.static_labels, name, env);
        },
        _ => {},
    }
}

proof fn labels_are_as_written(a: Labels, b: Labels, name: Seq<char>, env: Environment)
    requires
        resolve::labels_expand(a.listing(), b.listing(), name, env),
    ensures
        labelled_as_written(a, b, name, env),
{
    assert forall|i: int| 0 <= i < a.listing().len() implies (#[trigger] b.listing()[i]).0
        == a.listing()[i].0 && placeholder::expanded(a.listing()[i].1, name, env) == Ok::<
        Seq<char>,
        Seq<char>,
    >(b.listing()[i].1) by {
        assert(a.listing()[i].0 == b.listing()[i].0);
    }
}

/// A scraper that was loaded has the address, the credentials and the labels that were written
/// for it.
pub proof fn a_loaded_scraper_is_as_written(
    c: Config,
    r: Result<Config>,
    env: Environment,
    i: int,
    a: PrometheusCollectorConfig,
)
    requires
        c.loaded(r, env),
        r is Ok,
        0 <= i < c.metrics.collectors@.len(),
        c.metrics.collectors@[i].1 == CollectorConfig::Prometheus(a),
    ensures
        r->Ok_0.metrics.collectors@[i].1 matches CollectorConfig::Prometheus(b) && {
            let name = c.instance.name@;
            &&& as_written(a.url, b.url, name, env)
            &&& access_as_written((a.auth, a.tls), (b.auth, b.tls), name, env)
            &&& labelled_as_written(a.static_labels, b.static_labels, name, env)
        },
{
    let name = c.instance.name@;
    assert(c.metrics.collectors@[i].1.expands_to(r->Ok_0.metrics.collectors@[i].1, name, env));
    match r->Ok_0.metrics.collectors@[i].1 {
        CollectorConfig::Prometheus(b) => {
            labels_are_as_written(a.static_labels, b.static_labels, name, env);
        },
        _ => {},
    }
}

/// A forwarder that was loaded has every setting that was written for it.
pub proof fn a_loaded_forwarder_is_as_written(c: Config, r: Result<Config>, env: Environment, i: int)
    requires
        c.loaded(r, env),
        r is Ok,
        0 <= i < c.metrics.forwarders@.len(),
    ensures
        r->Ok_0.metrics.forwarders@.len() == c.metrics.forwarders@.len(),
        r->Ok_0.metrics.forwarders@[i].0@ == c.metrics.forwarders@[i].0@,
        ({
            let ForwarderConfig::Otlphttp(a) = c.metrics.forwarders@[i].1;
            let ForwarderConfig::Otlphttp(b) = r->Ok_0.metrics.forwarders@[i].1;
            let name = c.instance.name@;
            &&& as_written(a.endpoint, b.endpoint, name, env)
            &&& access_as_written((a.auth, a.tls), (b.auth, b.tls), name, env)
            &&& b.compression == a.compression
            &&& b.timeout == a.timeout
            &&& b.buffer_max_metrics == a.buffer_max_metrics
            &&& b.request_max_metrics == a.request_max_metrics
            &&& b.backoff_initial == a.backoff_initial
            &&& b.backoff_max == a.backoff_max
            &&& labelled_as_written(a.resource_attributes, b.resource_attributes, name, env)
        }),
{
    let name = c.instance.name@;
    assert(c.metrics.forwarders@[i].1.expands_to(r->Ok_0.metrics.forwarders@[i].1, name, env));
    let ForwarderConfig::Otlphttp(a) = c.metrics.forwarders@[i].1;
    let ForwarderConfig::Otlphttp(b) = r->Ok_0.metrics.forwarders@[i].1;
    labels_are_as_written(a.resource_attributes, b.resource_attributes, name, env);
}

/// A shipper that was loaded has every setting that was written for it, and so have its source
/// and its sink.
pub proof fn a_loaded_shipper_is_as_written(c: Config, r: Result<Config>, env: Environment, i: int)
    requires
        c.loaded(r, env),
        r is Ok,
        0 <= i < c.logs.shippers@.len(),
    ensures
        r->Ok_0.logs.shippers@.len() == c.logs.shippers@.len(),
        r->Ok_0.logs.shippers@[i].0@ == c.logs.shippers@[i].0@,
        ({
            let a = c.logs.shippers@[i].1;
            let b = r->Ok_0.logs.shippers@[i].1;
            let LogSourceConfig::Journald(p) = a.source;
            let LogSourceConfig::Journald(q) = b.source;
            let LogSinkConfig::Loki(s) = a.sink;
            let LogSinkConfig::Loki(t) = b.sink;
            let name = c.instance.name@;
            &&& b.backoff_initial == a.backoff_initial
            &&& b.backoff_max == a.backoff_max
            &&& q.batch_size == p.batch_size
            &&& q.batch_max_bytes == p.batch_max_bytes
            &&& q.batch_wait == p.batch_wait
            &&& q.runtime_only == p.runtime_only
            &&& as_written(p.cursor_file, q.cursor_file, name, env)
            &&& labelled_as_written(p.labels, q.labels, name, env)
            &&& labelled_as_written(p.static_labels, q.static_labels, name, env)
            &&& labelled_as_written(p.metadata, q.metadata, name, env)
            &&& as_written(s.endpoint, t.endpoint, name, env)
            &&& access_as_written((s.auth, s.tls), (t.auth, t.tls), name, env)
        }),
{
    let name = c.instance.name@;
    let a = c.logs.shippers@[i].1;
    let b = r->Ok_0.logs.shippers@[i].1;
    assert(c.logs.shippers@[i].1.expands_to(r->Ok_0.logs.shippers@[i].1, name, env));
    let LogSourceConfig::Journald(p) = a.source;
    let LogSourceConfig::Journald(q) = b.source;
    labels_are_as_written(p.labels, q.labels, name, env);
    labels_are_as_written(p.static_labels, q.static_labels, name, env);
    labels_are_as_written(p.metadata, q.metadata, name, env);
}

/// What holds no placeholder is loaded as it was written, letter by letter.
pub proof fn plain_settings_are_loaded_unchanged(
    a: String,
    b: String,
    name: Seq<char>,
    env: Environment,
)
    requires
        as_written(a, b, name, env),
        !text::holds(a@, "${"@),
    ensures
        b@ == a@,
{
    placeholder::plain_text_is_unchanged(a@, name, env);
}

/// Labels without placeholders are loaded as they were written.
pub proof fn plain_labels_are_loaded_unchanged(
    a: Labels,
    b: Labels,
    name: Seq<char>,
    env: Environment,
)
    requires
        labelled_as_written(a, b, name, env),
        forall|i: int|
            0 <= i < a.listing().len() ==> !text::holds((#[trigger] a.listing()[i]).1, "${"@),
    ensures
        b.listing() == a.listing(),
        b@ == a@,
{
    assert forall|i: int| 0 <= i < a.listing().len() implies a.listing()[i] == b.listing()[i] by {
        assert(b.listing()[i].0 == a.listing()[i].0);
        placeholder::plain_text_is_unchanged(a.listing()[i].1, name, env);
    }
    assert(a.listing() =~= b.listing());
}

/// A configuration that was loaded is the same instance, and nothing of it is missing or added.
pub proof fn a_loaded_configuration_is_complete(c: Config, r: Result<Config>, env: Environment)
    requires
        c.loaded(r, env),
        r is Ok,
    ensures
        r->Ok_0.instance.name@ == c.instance.name@,
        r->Ok_0.metrics.collectors@.len() == c.metrics.collectors@.len(),
        r->Ok_0.metrics.forwarders@.len() == c.metrics.forwarders@.len(),
        r->Ok_0.logs.shippers@.len() == c.logs.shippers@.len(),
        c.fault() is None,
{
}

/// A file that cannot be read is named with the reason, one that holds no configuration is told
/// why, and a configuration is told what is wrong with it.
pub proof fn files_without_a_configuration_are_told(path: Seq<char>, why: String, c: Config)
    ensures
        Config::load_fault(path, Parsed::Unreadable(why)) == Some(
            "failed to read "@ + path + ": "@ + why@,
        ),
        Config::load_fault(path, Parsed::Malformed(why)) == Some(
            "failed to parse config: "@ + why@,
        ),
        Config::load_fault(path, Parsed::Read(c)) == c.fault(),
{
}

/// What is wrong with a configuration as it is written is told before anything else; then what
/// cannot be replaced; and only a configuration without either is loaded.
pub proof fn faults_are_told_before_loading(c: Config, r: Result<Config>, env: Environment)
    requires
        c.loaded(r, env),
    ensures
        c.fault() matches Some(m) ==> (r matches Err(e) && e.is_config(m)),
        c.fault() is None ==> (resolve::expand_all(c.values(), c.instance.name@, env) matches Err(m)
            ==> (r matches Err(e) && e.is_config(m))),
        r matches Ok(d) ==> c.fault() is None && resolve::expand_all(
            c.values(),
            c.instance.name@,
            env,
        ) is Ok && d.resolved_fault() is None,
{
}

} // verus!
