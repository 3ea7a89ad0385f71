//! Replacing the placeholders of a whole configuration.
//!
//! Every text of a configuration may hold placeholders, except the name of the instance:
//! it is what `instance.name` stands for in the others. The names of labels and of components
//! are no texts of their own.
use vstd::prelude::*;

use crate::config::placeholder::{self, Environment};
use crate::config::{
    AuthConfig, CollectorConfig, Config, ForwarderConfig, InstanceConfig, JournaldSourceConfig,
    LogSinkConfig, LogSourceConfig, LogsConfig, LokiSinkConfig, MetricsConfig,
    OtlphttpForwarderConfig, PrometheusCollectorConfig, ShipperConfig, TlsConfig,
    UnixCollectorConfig,
};
use crate::error::Result;
use crate::labels::{Label, Labels};
use crate::ordered::{self, Key, OrderedMap};
use crate::text;

verus! {

/// A list of texts, or what is wrong with one of them.
pub type Values = std::result::Result<Seq<Seq<char>>, Seq<char>>;

/// Some texts with their placeholders replaced, or what is wrong with the first one that
/// cannot be expanded.
pub open spec fn expand_all(v: Seq<Seq<char>>, name: Seq<char>, env: Environment) -> Values
    decreases v.len(),
{
    if v.len() == 0 {
        Ok(Seq::empty())
    } else {
        match expand_all(v.drop_last(), name, env) {
            Err(e) => Err(e),
            Ok(x) => match placeholder::expanded(v.last(), name, env) {
                Err(e) => Err(e),
                Ok(t) => Ok(x.push(t)),
            },
        }
    }
}

/// One list behind another, or what is wrong with the first that has a fault.
pub open spec fn joined(a: Values, b: Values) -> Values {
    match a {
        Err(e) => Err(e),
        Ok(x) => match b {
            Err(e) => Err(e),
            Ok(y) => Ok(x + y),
        },
    }
}

proof fn expand_joined(a: Seq<Seq<char>>, b: Seq<Seq<char>>, name: Seq<char>, env: Environment)
    ensures
        expand_all(a + b, name, env) == joined(expand_all(a, name, env), expand_all(b, name, env)),
    decreases b.len(),
{
    if b.len() == 0 {
        assert(a + b =~= a);
        match expand_all(a, name, env) {
            Ok(x) => {
                assert(x + Seq::<Seq<char>>::empty() =~= x);
            },
            Err(_) => {},
        }
    } else {
        expand_joined(a, b.drop_last(), name, env);
        assert((a + b).drop_last() =~= a + b.drop_last());
        assert((a + b).last() == b.last());
        match (expand_all(a, name, env), expand_all(b.drop_last(), name, env)) {
            (Ok(x), Ok(y)) => {
                match placeholder::expanded(b.last(), name, env) {
                    Ok(t) => {
                        assert((x + y).push(t) =~= x + y.push(t));
                    },
                    Err(_) => {},
                }
            },
            _ => {},
        }
    }
}

/// The lists of a list, one behind the other.
pub open spec fn flat(v: Seq<Seq<Seq<char>>>) -> Seq<Seq<char>>
    decreases v.len(),
{
    if v.len() == 0 {
        Seq::empty()
    } else {
        flat(v.drop_last()) + v.last()
    }
}

proof fn flat_fault_stays(v: Seq<Seq<Seq<char>>>, n: int, name: Seq<char>, env: Environment)
    requires
        0 <= n <= v.len(),
        expand_all(flat(v.take(n)), name, env) is Err,
    ensures
        expand_all(flat(v), name, env) == expand_all(flat(v.take(n)), name, env),
    decreases v.len(),
{
    if n < v.len() {
        assert(v.drop_last().take(n) =~= v.take(n));
        flat_fault_stays(v.drop_last(), n, name, env);
        expand_joined(flat(v.drop_last()), v.last(), name, env);
    } else {
        assert(v.take(n) =~= v);
    }
}

/// What became of something with texts: the same with the texts expanded, or the fault of
/// the first one that cannot be expanded as a configuration error.
pub open spec fn became<T>(r: Result<T>, wanted: Values, texts: spec_fn(T) -> Seq<Seq<char>>) -> bool {
    match r {
        Ok(x) => wanted == Ok::<Seq<Seq<char>>, Seq<char>>(texts(x)),
        Err(e) => wanted matches Err(m) && e.is_config(m),
    }
}

// Texts and label sets

/// A text with its placeholders replaced is another one.
pub open spec fn text_expands(s: Seq<char>, t: Seq<char>, name: Seq<char>, env: Environment) -> bool {
    placeholder::expanded(s, name, env) == Ok::<Seq<char>, Seq<char>>(t)
}

/// An optional text is there as before, with its placeholders replaced.
pub open spec fn opt_expands(
    s: Option<String>,
    t: Option<String>,
    name: Seq<char>,
    env: Environment,
) -> bool {
    match (s, t) {
        (Some(a), Some(b)) => text_expands(a@, b@, name, env),
        (None, None) => true,
        _ => false,
    }
}

/// An optional text can be expanded, or is not there.
pub open spec fn resolvable(s: Option<String>, name: Seq<char>, env: Environment) -> bool {
    s matches Some(t) ==> placeholder::expanded(t@, name, env) is Ok
}

/// The labels are the same, with the placeholders of their values replaced.
pub open spec fn labels_expand(
    a: Seq<Label>,
    b: Seq<Label>,
    name: Seq<char>,
    env: Environment,
) -> bool {
    &&& a.len() == b.len()
    &&& forall|i: int|
        0 <= i < a.len() ==> (#[trigger] a[i]).0 == b[i].0 && text_expands(a[i].1, b[i].1, name, env)
}

/// The texts are as many, in the same order, with their placeholders replaced.
pub open spec fn texts_expand(
    a: Seq<Seq<char>>,
    b: Seq<Seq<char>>,
    name: Seq<char>,
    env: Environment,
) -> bool {
    &&& a.len() == b.len()
    &&& forall|i: int| 0 <= i < a.len() ==> text_expands(#[trigger] a[i], b[i], name, env)
}

/// The text of an optional value.
pub open spec fn opt_values(s: Option<String>) -> Seq<Seq<char>> {
    match s {
        Some(t) => seq![t@],
        None => Seq::empty(),
    }
}

fn resolve_text(s: &String, name: &str, env: &Environment) -> (r: Result<String>)
    ensures
        became(r, expand_all(seq![s@], name@, *env), |x: String| seq![x@]),
        r is Ok <==> placeholder::expanded(s@, name@, *env) is Ok,
        r matches Ok(x) ==> text_expands(s@, x@, name@, *env),
{
    let r = placeholder::expand_placeholders(s.as_str(), name, env);
    proof {
        let one = seq![s@];
        assert(one.drop_last() =~= Seq::empty());
        assert(one.last() == s@);
        reveal_with_fuel(expand_all, 2);
        if r is Ok {
            assert(Seq::empty().push(r->Ok_0@) =~= seq![r->Ok_0@]);
        }
    }
    r
}

fn resolve_opt(s: &Option<String>, name: &str, env: &Environment) -> (r: Result<Option<String>>)
    ensures
        became(r, expand_all(opt_values(*s), name@, *env), |x: Option<String>| opt_values(x)),
        r is Ok <==> resolvable(*s, name@, *env),
        r matches Ok(x) ==> opt_expands(*s, x, name@, *env),
{
    match s {
        None => Ok(None),
        Some(t) => match resolve_text(t, name, env) {
            Ok(t) => Ok(Some(t)),
            Err(e) => Err(e),
        },
    }
}

/// The values of a label set, in the order of the labels.
pub open spec fn label_values(l: Seq<Label>) -> Seq<Seq<char>> {
    l.map_values(|e: Label| e.1)
}

spec fn seconds(v: Seq<(String, String)>) -> Seq<Seq<char>> {
    v.map_values(|e: (String, String)| e.1@)
}

fn resolve_labels(l: &Labels, name: &str, env: &Environment) -> (r: Result<Labels>)
    ensures
        became(
            r,
            expand_all(label_values(l.listing()), name@, *env),
            |x: Labels| label_values(x.listing()),
        ),
        r matches Ok(x) ==> labels_expand(l.listing(), x.listing(), name@, *env),
{
    let n: usize = l.len();
    let ghost all = l.listing();
    let ghost vals = label_values(all);
    let mut out: Vec<(String, String)> = Vec::new();
    let mut i: usize = 0;
    assert(vals.take(0) =~= Seq::empty());
    assert(seconds(out@) =~= Seq::empty());
    while i < n
        invariant
            i <= n,
            n == all.len(),
            all == l.listing(),
            vals == label_values(all),
            out@.len() == i,
            forall|k: int|
                0 <= k < i ==> (#[trigger] out@[k]).0@ == all[k].0 && text_expands(
                    all[k].1,
                    out@[k].1@,
                    name@,
                    *env,
                ),
            expand_all(vals.take(i as int), name@, *env) == Ok::<Seq<Seq<char>>, Seq<char>>(
                seconds(out@),
            ),
        decreases n - i,
    {
        let ghost before = seconds(out@);
        proof {
            assert(vals.take(i + 1).drop_last() =~= vals.take(i as int));
            assert(vals.take(i + 1).last() == all[i as int].1);
        }
        match placeholder::expand_placeholders(l.value_at(i).as_str(), name, env) {
            Ok(t) => {
                out.push((l.key_at(i).clone(), t));
                assert(seconds(out@) =~= before.push(t@));
            },
            Err(e) => {
                proof {
                    values_fault_stays(vals, i + 1, name@, *env);
                }
                return Err(e);
            },
        }
        i = i + 1;
    }
    let ghost listed = out@.map_values(|e: (String, String)| (Key::meaning(&e.0), e.1@));
    proof {
        assert(vals.take(n as int) =~= vals);
        assert(ordered::firsts(listed) =~= ordered::firsts(all));
        assert(label_values(listed) =~= seconds(out@));
    }
    let r: Labels = OrderedMap::from_entries(out);
    assert(r.listing() =~= listed);
    Ok(r)
}

fn resolve_texts(v: &Vec<String>, name: &str, env: &Environment) -> (r: Result<Vec<String>>)
    ensures
        became(
            r,
            expand_all(text::texts(v@), name@, *env),
            |x: Vec<String>| text::texts(x@),
        ),
        r matches Ok(x) ==> texts_expand(text::texts(v@), text::texts(x@), name@, *env),
{
    let ghost vals = text::texts(v@);
    let mut out: Vec<String> = Vec::new();
    let mut i: usize = 0;
    assert(vals.take(0) =~= Seq::empty());
    assert(text::texts(out@) =~= Seq::empty());
    while i < v.len()
        invariant
            i <= v@.len(),
            vals == text::texts(v@),
            out@.len() == i,
            forall|k: int|
                0 <= k < i ==> text_expands(vals[k], (#[trigger] out@[k])@, name@, *env),
            expand_all(vals.take(i as int), name@, *env) == Ok::<Seq<Seq<char>>, Seq<char>>(
                text::texts(out@),
            ),
        decreases v@.len() - i,
    {
        let ghost before = text::texts(out@);
        proof {
            assert(vals.take(i + 1).drop_last() =~= vals.take(i as int));
            assert(vals.take(i + 1).last() == v@[i as int]@);
        }
        match placeholder::expand_placeholders(v[i].as_str(), name, env) {
            Ok(t) => {
                out.push(t);
                assert(text::texts(out@) =~= before.push(t@));
            },
            Err(e) => {
                proof {
                    values_fault_stays(vals, i + 1, name@, *env);
                }
                return Err(e);
            },
        }
        i = i + 1;
    }
    assert(vals.take(i as int) =~= vals);
    assert(forall|k: int| 0 <= k < out@.len() ==> #[trigger] text::texts(out@)[k] == out@[k]@);
    Ok(out)
}

proof fn values_fault_stays(v: Seq<Seq<char>>, n: int, name: Seq<char>, env: Environment)
    requires
        0 <= n <= v.len(),
        expand_all(v.take(n), name, env) is Err,
    ensures
        expand_all(v, name, env) == expand_all(v.take(n), name, env),
    decreases v.len(),
{
    if n < v.len() {
        assert(v.drop_last().take(n) =~= v.take(n));
        values_fault_stays(v.drop_last(), n, name, env);
    } else {
        assert(v.take(n) =~= v);
    }
}

// Components

impl TlsConfig {
    /// The texts that may hold placeholders.
    pub open spec fn values(self) -> Seq<Seq<char>> {
        opt_values(self.client_cert_file) + opt_values(self.client_key_file)
            + opt_values(self.ca_cert_file)
    }

    /// Another one is this one with its placeholders replaced.
    pub open spec fn expands_to(
        self,
        other: TlsConfig,
        name: Seq<char>,
        env: Environment,
    ) -> bool {
        &&& opt_expands(self.client_cert_file, other.client_cert_file, name, env)
        &&& opt_expands(self.client_key_file, other.client_key_file, name, env)
        &&& opt_expands(self.ca_cert_file, other.ca_cert_file, name, env)
    }
}

impl TlsConfig {
    /// Every text that is there can be expanded.
    pub open spec fn expandable(self, name: Seq<char>, env: Environment) -> bool {
        &&& resolvable(self.client_cert_file, name, env)
        &&& resolvable(self.client_key_file, name, env)
        &&& resolvable(self.ca_cert_file, name, env)
    }

    /// Replaces the placeholders of the settings: they resolve exactly where each text that is
    /// there does, and are as valid as before.
    pub fn resolve_placeholders(&self, name: &str, env: &Environment) -> (r: Result<TlsConfig>)
        ensures
            became(r, expand_all(self.values(), name@, *env), |x: TlsConfig| x.values()),
            r is Ok <==> self.expandable(name@, *env),
            r matches Ok(x) ==> self.expands_to(x, name@, *env) && forall|ctx: Seq<char>|
                x.fault(ctx) == #[trigger] self.fault(ctx),
    {
        proof {
            let p0 = opt_values(self.client_cert_file);
            let s1 = opt_values(self.client_key_file);
            expand_joined(p0, s1, name@, *env);
            let p1 = p0 + s1;
            let s2 = opt_values(self.ca_cert_file);
            expand_joined(p1, s2, name@, *env);
        }
        let client_cert_file = match resolve_opt(&self.client_cert_file, name, env) {
            Ok(x) => x,
            Err(e) => {
                return Err(e);
            },
        };
        let client_key_file = match resolve_opt(&self.client_key_file, name, env) {
            Ok(x) => x,
            Err(e) => {
                return Err(e);
            },
        };
        let ca_cert_file = match resolve_opt(&self.ca_cert_file, name, env) {
            Ok(x) => x,
            Err(e) => {
                return Err(e);
            },
        };
        Ok(TlsConfig {
            client_cert_file,
            client_key_file,
            ca_cert_file,
        })
    }
}

impl AuthConfig {
    /// The texts that may hold placeholders.
    pub open spec fn values(self) -> Seq<Seq<char>> {
        opt_values(self.username) + opt_values(self.password) + opt_values(self.password_file)
            + opt_values(self.bearer_token) + opt_values(self.bearer_token_file)
            + opt_values(self.authorization)
    }

    /// Another one is this one with its placeholders replaced.
    pub open spec fn expands_to(
        self,
        other: AuthConfig,
        name: Seq<char>,
        env: Environment,
    ) -> bool {
        &&& opt_expands(self.username, other.username, name, env)
        &&& opt_expands(self.password, other.password, name, env)
        &&& opt_expands(self.password_file, other.password_file, name, env)
        &&& opt_expands(self.bearer_token, other.bearer_token, name, env)
        &&& opt_expands(self.bearer_token_file, other.bearer_token_file, name, env)
        &&& opt_expands(self.authorization, other.authorization, name, env)
    }
}

impl AuthConfig {
    /// Every text that is there can be expanded.
    pub open spec fn expandable(self, name: Seq<char>, env: Environment) -> bool {
        &&& resolvable(self.username, name, env)
        &&& resolvable(self.password, name, env)
        &&& resolvable(self.password_file, name, env)
        &&& resolvable(self.bearer_token, name, env)
        &&& resolvable(self.bearer_token_file, name, env)
        &&& resolvable(self.authorization, name, env)
    }

    /// Replaces the placeholders of the credentials: they resolve exactly where each text that is
    /// there does, and are as valid as before.
    pub fn resolve_placeholders(&self, name: &str, env: &Environment) -> (r: Result<AuthConfig>)
        ensures
            became(r, expand_all(self.values(), name@, *env), |x: AuthConfig| x.values()),
            r is Ok <==> self.expandable(name@, *env),
            r matches Ok(x) ==> self.expands_to(x, name@, *env) && forall|ctx: Seq<char>|
                x.fault(ctx) == #[trigger] self.fault(ctx),
    {
        proof {
            let p0 = opt_values(self.username);
            let s1 = opt_values(self.password);
            expand_joined(p0, s1, name@, *env);
            let p1 = p0 + s1;
            let s2 = opt_values(self.password_file);
            expand_joined(p1, s2, name@, *env);
            let p2 = p1 + s2;
            let s3 = opt_values(self.bearer_token);
            expand_joined(p2, s3, name@, *env);
            let p3 = p2 + s3;
            let s4 = opt_values(self.bearer_token_file);
            expand_joined(p3, s4, name@, *env);
            let p4 = p3 + s4;
            let s5 = opt_values(self.authorization);
            expand_joined(p4, s5, name@, *env);
        }
        let username = match resolve_opt(&self.username, name, env) {
            Ok(x) => x,
            Err(e) => {
                return Err(e);
            },
        };
        let password = match resolve_opt(&self.password, name, env) {
            Ok(x) => x,
            Err(e) => {
                return Err(e);
            },
        };
        let password_file = match resolve_opt(&self.password_file, name, env) {
            Ok(x) => x,
            Err(e) => {
                return Err(e);
            },
        };
        let bearer_token = match resolve_opt(&self.bearer_token, name, env) {
            Ok(x) => x,
            Err(e) => {
                return Err(e);
            },
        };
        let bearer_token_file = match resolve_opt(&self.bearer_token_file, name, env) {
            Ok(x) => x,
            Err(e) => {
                return Err(e);
            },
        };
        let authorization = match resolve_opt(&self.authorization, name, env) {
            Ok(x) => x,
            Err(e) => {
                return Err(e);
            },
        };
        Ok(AuthConfig {
            username,
            password,
            password_file,
            bearer_token,
            bearer_token_file,
            authorization,
        })
    }
}

impl UnixCollectorConfig {
    /// The texts that may hold placeholders.
    pub open spec fn values(self) -> Seq<Seq<char>> {
        seq![self.disk_devices@] + seq![self.net_devices@] + seq![self.filesystem_mount_points@]
            + seq![self.filesystem_fs_types@] + seq![self.hwmon_chips@] + text::texts(
            self.collectors@,
        ) + label_values(self.static_labels.listing())
    }

    /// Another one is this one with its placeholders replaced.
    pub open spec fn expands_to(
        self,
        other: UnixCollectorConfig,
        name: Seq<char>,
        env: Environment,
    ) -> bool {
        &&& self.interval == other.interval
        &&& self.max_runtime == other.max_runtime
        &&& text_expands(self.disk_devices@, other.disk_devices@, name, env)
        &&& text_expands(self.net_devices@, other.net_devices@, name, env)
        &&& text_expands(self.filesystem_mount_points@, other.filesystem_mount_points@, name, env)
        &&& text_expands(self.filesystem_fs_types@, other.filesystem_fs_types@, name, env)
        &&& self.filesystem_dedupe_devices == other.filesystem_dedupe_devices
        &&& text_expands(self.hwmon_chips@, other.hwmon_chips@, name, env)
        &&& texts_expand(text::texts(self.collectors@), text::texts(other.collectors@), name, env)
        &&& labels_expand(self.static_labels.listing(), other.static_labels.listing(), name, env)
    }
}

fn resolve_unix(c: &UnixCollectorConfig, name: &str, env: &Environment) -> (r: Result<
    UnixCollectorConfig,
>)
    ensures
        became(r, expand_all(c.values(), name@, *env), |x: UnixCollectorConfig| x.values()),
        r matches Ok(x) ==> c.expands_to(x, name@, *env),
{
    proof {
        let p0 = seq![c.disk_devices@];
        let s1 = seq![c.net_devices@];
        expand_joined(p0, s1, name@, *env);
        let p1 = p0 + s1;
        let s2 = seq![c.filesystem_mount_points@];
        expand_joined(p1, s2, name@, *env);
        let p2 = p1 + s2;
        let s3 = seq![c.filesystem_fs_types@];
        expand_joined(p2, s3, name@, *env);
        let p3 = p2 + s3;
        let s4 = seq![c.hwmon_chips@];
        expand_joined(p3, s4, name@, *env);
        let p4 = p3 + s4;
        let s5 = text::texts(c.collectors@);
        expand_joined(p4, s5, name@, *env);
        let p5 = p4 + s5;
        let s6 = label_values(c.static_labels.listing());
        expand_joined(p5, s6, name@, *env);
    }
    let disk_devices = match resolve_text(&c.disk_devices, name, env) {
        Ok(x) => x,
        Err(e) => {
            return Err(e);
        },
    };
    let net_devices = match resolve_text(&c.net_devices, name, env) {
        Ok(x) => x,
        Err(e) => {
            return Err(e);
        },
    };
    let filesystem_mount_points = match resolve_text(&c.filesystem_mount_points, name, env) {
        Ok(x) => x,
        Err(e) => {
            return Err(e);
        },
    };
    let filesystem_fs_types = match resolve_text(&c.filesystem_fs_types, name, env) {
        Ok(x) => x,
        Err(e) => {
            return Err(e);
        },
    };
    let hwmon_chips = match resolve_text(&c.hwmon_chips, name, env) {
        Ok(x) => x,
        Err(e) => {
            return Err(e);
        },
    };
    let collectors = match resolve_texts(&c.collectors, name, env) {
        Ok(x) => x,
        Err(e) => {
            return Err(e);
        },
    };
    let static_labels = match resolve_labels(&c.static_labels, name, env) {
        Ok(x) => x,
        Err(e) => {
            return Err(e);
        },
    };
    Ok(UnixCollectorConfig {
        interval: c.interval,
        max_runtime: c.max_runtime,
        disk_devices,
        net_devices,
        filesystem_mount_points,
        filesystem_fs_types,
        filesystem_dedupe_devices: c.filesystem_dedupe_devices,
        hwmon_chips,
        collectors,
        static_labels,
    })
}

impl PrometheusCollectorConfig {
    /// The texts that may hold placeholders.
    pub open spec fn values(self) -> Seq<Seq<char>> {
        seq![self.url@] + self.auth.values() + self.tls.values() + label_values(
            self.static_labels.listing(),
        )
    }

    /// Another one is this one with its placeholders replaced.
    pub open spec fn expands_to(
        self,
        other: PrometheusCollectorConfig,
        name: Seq<char>,
        env: Environment,
    ) -> bool {
        &&& text_expands(self.url@, other.url@, name, env)
        &&& self.interval == other.interval
        &&& self.scrape_timeout == other.scrape_timeout
        &&& self.max_runtime == other.max_runtime
        &&& self.auth.expands_to(other.auth, name, env)
        &&& self.tls.expands_to(other.tls, name, env)
        &&& labels_expand(self.static_labels.listing(), other.static_labels.listing(), name, env)
    }
}

fn resolve_prometheus(c: &PrometheusCollectorConfig, name: &str, env: &Environment) -> (r: Result<
    PrometheusCollectorConfig,
>)
    ensures
        became(r, expand_all(c.values(), name@, *env), |x: PrometheusCollectorConfig| x.values()),
        r matches Ok(x) ==> c.expands_to(x, name@, *env),
{
    proof {
        let p0 = seq![c.url@];
        let s1 = c.auth.values();
        expand_joined(p0, s1, name@, *env);
        let p1 = p0 + s1;
        let s2 = c.tls.values();
        expand_joined(p1, s2, name@, *env);
        let p2 = p1 + s2;
        let s3 = label_values(c.static_labels.listing());
        expand_joined(p2, s3, name@, *env);
    }
    let url = match resolve_text(&c.url, name, env) {
        Ok(x) => x,
        Err(e) => {
            return Err(e);
        },
    };
    let auth = match c.auth.resolve_placeholders(name, env) {
        Ok(x) => x,
        Err(e) => {
            return Err(e);
        },
    };
    let tls = match c.tls.resolve_placeholders(name, env) {
        Ok(x) => x,
        Err(e) => {
            return Err(e);
        },
    };
    let static_labels = match resolve_labels(&c.static_labels, name, env) {
        Ok(x) => x,
        Err(e) => {
            return Err(e);
        },
    };
    Ok(PrometheusCollectorConfig {
        url,
        interval: c.interval,
        scrape_timeout: c.scrape_timeout,
        max_runtime: c.max_runtime,
        auth,
        tls,
        static_labels,
    })
}

impl OtlphttpForwarderConfig {
    /// The texts that may hold placeholders.
    pub open spec fn values(self) -> Seq<Seq<char>> {
        seq![self.endpoint@] + self.auth.values() + self.tls.values() + label_values(
            self.resource_attributes.listing(),
        )
    }

    /// Another one is this one with its placeholders replaced.
    pub open spec fn expands_to(
        self,
        other: OtlphttpForwarderConfig,
        name: Seq<char>,
        env: Environment,
    ) -> bool {
        &&& text_expands(self.endpoint@, other.endpoint@, name, env)
        &&& self.auth.expands_to(other.auth, name, env)
        &&& self.tls.expands_to(other.tls, name, env)
        &&& self.compression == other.compression
        &&& self.timeout == other.timeout
        &&& self.buffer_max_metrics == other.buffer_max_metrics
        &&& self.request_max_metrics == other.request_max_metrics
        &&& self.backoff_initial == other.backoff_initial
        &&& self.backoff_max == other.backoff_max
        &&& labels_expand(self.resource_attributes.listing(), other.resource_attributes.listing(), name, env)
    }
}

fn resolve_otlphttp(c: &OtlphttpForwarderConfig, name: &str, env: &Environment) -> (r: Result<
    OtlphttpForwarderConfig,
>)
    ensures
        became(r, expand_all(c.values(), name@, *env), |x: OtlphttpForwarderConfig| x.values()),
        r matches Ok(x) ==> c.expands_to(x, name@, *env),
{
    proof {
        let p0 = seq![c.endpoint@];
        let s1 = c.auth.values();
        expand_joined(p0, s1, name@, *env);
        let p1 = p0 + s1;
        let s2 = c.tls.values();
        expand_joined(p1, s2, name@, *env);
        let p2 = p1 + s2;
        let s3 = label_values(c.resource_attributes.listing());
        expand_joined(p2, s3, name@, *env);
    }
    let endpoint = match resolve_text(&c.endpoint, name, env) {
        Ok(x) => x,
        Err(e) => {
            return Err(e);
        },
    };
    let auth = match c.auth.resolve_placeholders(name, env) {
        Ok(x) => x,
        Err(e) => {
            return Err(e);
        },
    };
    let tls = match c.tls.resolve_placeholders(name, env) {
        Ok(x) => x,
        Err(e) => {
            return Err(e);
        },
    };
    let resource_attributes = match resolve_labels(&c.resource_attributes, name, env) {
        Ok(x) => x,
        Err(e) => {
            return Err(e);
        },
    };
    Ok(OtlphttpForwarderConfig {
        endpoint,
        auth,
        tls,
        compression: c.compression,
        timeout: c.timeout,
        buffer_max_metrics: c.buffer_max_metrics,
        request_max_metrics: c.request_max_metrics,
        backoff_initial: c.backoff_initial,
        backoff_max: c.backoff_max,
        resource_attributes,
    })
}

impl JournaldSourceConfig {
    /// The texts that may hold placeholders.
    pub open spec fn values(self) -> Seq<Seq<char>> {
        seq![self.cursor_file@] + label_values(self.labels.listing()) + label_values(
            self.static_labels.listing(),
        ) + label_values(self.metadata.listing())
    }

    /// Another one is this one with its placeholders replaced.
    pub open spec fn expands_to(
        self,
        other: JournaldSourceConfig,
        name: Seq<char>,
        env: Environment,
    ) -> bool {
        &&& text_expands(self.cursor_file@, other.cursor_file@, name, env)
        &&& self.batch_size == other.batch_size
        &&& self.batch_max_bytes == other.batch_max_bytes
        &&& self.batch_wait == other.batch_wait
        &&& self.runtime_only == other.runtime_only
        &&& labels_expand(self.labels.listing(), other.labels.listing(), name, env)
        &&& labels_expand(self.static_labels.listing(), other.static_labels.listing(), name, env)
        &&& labels_expand(self.metadata.listing(), other.metadata.listing(), name, env)
    }
}

fn resolve_journald(c: &JournaldSourceConfig, name: &str, env: &Environment) -> (r: Result<
    JournaldSourceConfig,
>)
    ensures
        became(r, expand_all(c.values(), name@, *env), |x: JournaldSourceConfig| x.values()),
        r matches Ok(x) ==> c.expands_to(x, name@, *env),
{
    proof {
        let p0 = seq![c.cursor_file@];
        let s1 = label_values(c.labels.listing());
        expand_joined(p0, s1, name@, *env);
        let p1 = p0 + s1;
        let s2 = label_values(c.static_labels.listing());
        expand_joined(p1, s2, name@, *env);
        let p2 = p1 + s2;
        let s3 = label_values(c.metadata.listing());
        expand_joined(p2, s3, name@, *env);
    }
    let cursor_file = match resolve_text(&c.cursor_file, name, env) {
        Ok(x) => x,
        Err(e) => {
            return Err(e);
        },
    };
    let labels = match resolve_labels(&c.labels, name, env) {
        Ok(x) => x,
        Err(e) => {
            return Err(e);
        },
    };
    let static_labels = match resolve_labels(&c.static_labels, name, env) {
        Ok(x) => x,
        Err(e) => {
            return Err(e);
        },
    };
    let metadata = match resolve_labels(&c.metadata, name, env) {
        Ok(x) => x,
        Err(e) => {
            return Err(e);
        },
    };
    Ok(JournaldSourceConfig {
        batch_size: c.batch_size,
        batch_max_bytes: c.batch_max_bytes,
        batch_wait: c.batch_wait,
        cursor_file,
        runtime_only: c.runtime_only,
        labels,
        static_labels,
        metadata,
    })
}

impl LokiSinkConfig {
    /// The texts that may hold placeholders.
    pub open spec fn values(self) -> Seq<Seq<char>> {
        seq![self.endpoint@] + self.auth.values() + self.tls.values()
    }

    /// Another one is this one with its placeholders replaced.
    pub open spec fn expands_to(
        self,
        other: LokiSinkConfig,
        name: Seq<char>,
        env: Environment,
    ) -> bool {
        &&& text_expands(self.endpoint@, other.endpoint@, name, env)
        &&& self.auth.expands_to(other.auth, name, env)
        &&& self.tls.expands_to(other.tls, name, env)
    }
}

fn resolve_loki(c: &LokiSinkConfig, name: &str, env: &Environment) -> (r: Result<LokiSinkConfig>)
    ensures
        became(r, expand_all(c.values(), name@, *env), |x: LokiSinkConfig| x.values()),
        r matches Ok(x) ==> c.expands_to(x, name@, *env),
{
    proof {
        let p0 = seq![c.endpoint@];
        let s1 = c.auth.values();
        expand_joined(p0, s1, name@, *env);
        let p1 = p0 + s1;
        let s2 = c.tls.values();
        expand_joined(p1, s2, name@, *env);
    }
    let endpoint = match resolve_text(&c.endpoint, name, env) {
        Ok(x) => x,
        Err(e) => {
            return Err(e);
        },
    };
    let auth = match c.auth.resolve_placeholders(name, env) {
        Ok(x) => x,
        Err(e) => {
            return Err(e);
        },
    };
    let tls = match c.tls.resolve_placeholders(name, env) {
        Ok(x) => x,
        Err(e) => {
            return Err(e);
        },
    };
    Ok(LokiSinkConfig {
        endpoint,
        auth,
        tls,
    })
}

impl CollectorConfig {
    /// The texts that may hold placeholders.
    pub open spec fn values(self) -> Seq<Seq<char>> {
        match self {
            CollectorConfig::Unix(c) => c.values(),
            CollectorConfig::Prometheus(c) => c.values(),
        }
    }

    /// Another one is this one with its placeholders replaced.
    pub open spec fn expands_to(
        self,
        other: CollectorConfig,
        name: Seq<char>,
        env: Environment,
    ) -> bool {
        match (self, other) {
            (CollectorConfig::Unix(a), CollectorConfig::Unix(b)) => a.expands_to(b, name, env),
            (CollectorConfig::Prometheus(a), CollectorConfig::Prometheus(b)) => a.expands_to(b, name, env),
            _ => false,
        }
    }
}

fn resolve_collector(c: &CollectorConfig, name: &str, env: &Environment) -> (r: Result<CollectorConfig>)
    ensures
        became(r, expand_all(c.values(), name@, *env), |x: CollectorConfig| x.values()),
        r matches Ok(x) ==> c.expands_to(x, name@, *env),
{
    match c {
        CollectorConfig::Unix(c) => match resolve_unix(c, name, env) {
            Ok(x) => Ok(CollectorConfig::Unix(x)),
            Err(e) => Err(e),
        },
        CollectorConfig::Prometheus(c) => match resolve_prometheus(c, name, env) {
            Ok(x) => Ok(CollectorConfig::Prometheus(x)),
            Err(e) => Err(e),
        },
    }
}

impl ForwarderConfig {
    /// The texts that may hold placeholders.
    pub open spec fn values(self) -> Seq<Seq<char>> {
        match self {
            ForwarderConfig::Otlphttp(c) => c.values(),
        }
    }

    /// Another one is this one with its placeholders replaced.
    pub open spec fn expands_to(
        self,
        other: ForwarderConfig,
        name: Seq<char>,
        env: Environment,
    ) -> bool {
        match (self, other) {
            (ForwarderConfig::Otlphttp(a), ForwarderConfig::Otlphttp(b)) => a.expands_to(b, name, env),
        }
    }
}

fn resolve_forwarder(c: &ForwarderConfig, name: &str, env: &Environment) -> (r: Result<ForwarderConfig>)
    ensures
        became(r, expand_all(c.values(), name@, *env), |x: ForwarderConfig| x.values()),
        r matches Ok(x) ==> c.expands_to(x, name@, *env),
{
    match c {
        ForwarderConfig::Otlphttp(c) => match resolve_otlphttp(c, name, env) {
            Ok(x) => Ok(ForwarderConfig::Otlphttp(x)),
            Err(e) => Err(e),
        },
    }
}

impl LogSourceConfig {
    /// The texts that may hold placeholders.
    pub open spec fn values(self) -> Seq<Seq<char>> {
        match self {
            LogSourceConfig::Journald(c) => c.values(),
        }
    }

    /// Another one is this one with its placeholders replaced.
    pub open spec fn expands_to(
        self,
        other: LogSourceConfig,
        name: Seq<char>,
        env: Environment,
    ) -> bool {
        match (self, other) {
            (LogSourceConfig::Journald(a), LogSourceConfig::Journald(b)) => a.expands_to(b, name, env),
        }
    }
}

fn resolve_source(c: &LogSourceConfig, name: &str, env: &Environment) -> (r: Result<LogSourceConfig>)
    ensures
        became(r, expand_all(c.values(), name@, *env), |x: LogSourceConfig| x.values()),
        r matches Ok(x) ==> c.expands_to(x, name@, *env),
{
    match c {
        LogSourceConfig::Journald(c) => match resolve_journald(c, name, env) {
            Ok(x) => Ok(LogSourceConfig::Journald(x)),
            Err(e) => Err(e),
        },
    }
}

impl LogSinkConfig {
    /// The texts that may hold placeholders.
    pub open spec fn values(self) -> Seq<Seq<char>> {
        match self {
            LogSinkConfig::Loki(c) => c.values(),
        }
    }

    /// Another one is this one with its placeholders replaced.
    pub open spec fn expands_to(
        self,
        other: LogSinkConfig,
        name: Seq<char>,
        env: Environment,
    ) -> bool {
        match (self, other) {
            (LogSinkConfig::Loki(a), LogSinkConfig::Loki(b)) => a.expands_to(b, name, env),
        }
    }
}

fn resolve_sink(c: &LogSinkConfig, name: &str, env: &Environment) -> (r: Result<LogSinkConfig>)
    ensures
        became(r, expand_all(c.values(), name@, *env), |x: LogSinkConfig| x.values()),
        r matches Ok(x) ==> c.expands_to(x, name@, *env),
{
    match c {
        LogSinkConfig::Loki(c) => match resolve_loki(c, name, env) {
            Ok(x) => Ok(LogSinkConfig::Loki(x)),
            Err(e) => Err(e),
        },
    }
}

impl ShipperConfig {
    /// The texts that may hold placeholders.
    pub open spec fn values(self) -> Seq<Seq<char>> {
        self.source.values() + self.sink.values()
    }

    /// Another one is this one with its placeholders replaced.
    pub open spec fn expands_to(
        self,
        other: ShipperConfig,
        name: Seq<char>,
        env: Environment,
    ) -> bool {
        &&& self.source.expands_to(other.source, name, env)
        &&& self.sink.expands_to(other.sink, name, env)
        &&& self.backoff_initial == other.backoff_initial
        &&& self.backoff_max == other.backoff_max
    }
}

fn resolve_shipper(c: &ShipperConfig, name: &str, env: &Environment) -> (r: Result<ShipperConfig>)
    ensures
        became(r, expand_all(c.values(), name@, *env), |x: ShipperConfig| x.values()),
        r matches Ok(x) ==> c.expands_to(x, name@, *env),
{
    proof {
        expand_joined(c.source.values(), c.sink.values(), name@, *env);
    }
    let source = match resolve_source(&c.source, name, env) {
        Ok(x) => x,
        Err(e) => {
            return Err(e);
        },
    };
    let sink = match resolve_sink(&c.sink, name, env) {
        Ok(x) => x,
        Err(e) => {
            return Err(e);
        },
    };
    Ok(
        ShipperConfig {
            source,
            sink,
            backoff_initial: c.backoff_initial,
            backoff_max: c.backoff_max,
        },
    )
}

/// The texts of some collectors that may hold placeholders.
pub open spec fn collectors_values(c: Seq<(String, CollectorConfig)>) -> Seq<Seq<char>> {
    flat(c.map_values(|e: (String, CollectorConfig)| e.1.values()))
}

/// They are as many with the same names, and their placeholders are replaced.
pub open spec fn collectors_expand(
    a: Seq<(String, CollectorConfig)>,
    b: Seq<(String, CollectorConfig)>,
    name: Seq<char>,
    env: Environment,
) -> bool {
    &&& a.len() == b.len()
    &&& forall|i: int|
        0 <= i < a.len() ==> (#[trigger] a[i]).0@ == b[i].0@ && a[i].1.expands_to(
            b[i].1,
            name,
            env,
        )
}

fn resolve_collectors(c: &Vec<(String, CollectorConfig)>, name: &str, env: &Environment) -> (r: Result<
    Vec<(String, CollectorConfig)>,
>)
    ensures
        became(
            r,
            expand_all(collectors_values(c@), name@, *env),
            |x: Vec<(String, CollectorConfig)>| collectors_values(x@),
        ),
        r matches Ok(x) ==> collectors_expand(c@, x@, name@, *env),
{
    let ghost all = c@.map_values(|e: (String, CollectorConfig)| e.1.values());
    let mut out: Vec<(String, CollectorConfig)> = Vec::new();
    let mut i: usize = 0;
    proof {
        assert(all.take(0) =~= Seq::empty());
        assert(out@.map_values(|e: (String, CollectorConfig)| e.1.values()) =~= Seq::empty());
    }
    while i < c.len()
        invariant
            i <= c@.len(),
            all == c@.map_values(|e: (String, CollectorConfig)| e.1.values()),
            expand_all(flat(all.take(i as int)), name@, *env) == Ok::<Seq<Seq<char>>, Seq<char>>(
                collectors_values(out@),
            ),
            out@.len() == i,
            forall|k: int|
                0 <= k < i ==> (#[trigger] c@[k]).0@ == out@[k].0@ && c@[k].1.expands_to(
                    out@[k].1,
                    name@,
                    *env,
                ),
        decreases c@.len() - i,
    {
        let ghost before = out@.map_values(|e: (String, CollectorConfig)| e.1.values());
        proof {
            assert(all.take(i + 1).drop_last() =~= all.take(i as int));
            assert(all.take(i + 1).last() == c@[i as int].1.values());
            expand_joined(flat(all.take(i as int)), c@[i as int].1.values(), name@, *env);
        }
        match resolve_collector(&c[i].1, name, env) {
            Ok(x) => {
                out.push((c[i].0.clone(), x));
                proof {
                    let after = out@.map_values(|e: (String, CollectorConfig)| e.1.values());
                    assert(after.drop_last() =~= before);
                    assert(after.last() == x.values());
                }
            },
            Err(e) => {
                proof {
                    flat_fault_stays(all, i + 1, name@, *env);
                }
                return Err(e);
            },
        }
        i = i + 1;
    }
    assert(all.take(i as int) =~= all);
    Ok(out)
}

/// The texts of some forwarders that may hold placeholders.
pub open spec fn forwarders_values(c: Seq<(String, ForwarderConfig)>) -> Seq<Seq<char>> {
    flat(c.map_values(|e: (String, ForwarderConfig)| e.1.values()))
}

/// They are as many with the same names, and their placeholders are replaced.
pub open spec fn forwarders_expand(
    a: Seq<(String, ForwarderConfig)>,
    b: Seq<(String, ForwarderConfig)>,
    name: Seq<char>,
    env: Environment,
) -> bool {
    &&& a.len() == b.len()
    &&& forall|i: int|
        0 <= i < a.len() ==> (#[trigger] a[i]).0@ == b[i].0@ && a[i].1.expands_to(
            b[i].1,
            name,
            env,
        )
}

fn resolve_forwarders(c: &Vec<(String, ForwarderConfig)>, name: &str, env: &Environment) -> (r: Result<
    Vec<(String, ForwarderConfig)>,
>)
    ensures
        became(
            r,
            expand_all(forwarders_values(c@), name@, *env),
            |x: Vec<(String, ForwarderConfig)>| forwarders_values(x@),
        ),
        r matches Ok(x) ==> forwarders_expand(c@, x@, name@, *env),
{
    let ghost all = c@.map_values(|e: (String, ForwarderConfig)| e.1.values());
    let mut out: Vec<(String, ForwarderConfig)> = Vec::new();
    let mut i: usize = 0;
    proof {
        assert(all.take(0) =~= Seq::empty());
        assert(out@.map_values(|e: (String, ForwarderConfig)| e.1.values()) =~= Seq::empty());
    }
    while i < c.len()
        invariant
            i <= c@.len(),
            all == c@.map_values(|e: (String, ForwarderConfig)| e.1.values()),
            expand_all(flat(all.take(i as int)), name@, *env) == Ok::<Seq<Seq<char>>, Seq<char>>(
                forwarders_values(out@),
            ),
            out@.len() == i,
            forall|k: int|
                0 <= k < i ==> (#[trigger] c@[k]).0@ == out@[k].0@ && c@[k].1.expands_to(
                    out@[k].1,
                    name@,
                    *env,
                ),
        decreases c@.len() - i,
    {
        let ghost before = out@.map_values(|e: (String, ForwarderConfig)| e.1.values());
        proof {
            assert(all.take(i + 1).drop_last() =~= all.take(i as int));
            assert(all.take(i + 1).last() == c@[i as int].1.values());
            expand_joined(flat(all.take(i as int)), c@[i as int].1.values(), name@, *env);
        }
        match resolve_forwarder(&c[i].1, name, env) {
            Ok(x) => {
                out.push((c[i].0.clone(), x));
                proof {
                    let after = out@.map_values(|e: (String, ForwarderConfig)| e.1.values());
                    assert(after.drop_last() =~= before);
                    assert(after.last() == x.values());
                }
            },
            Err(e) => {
                proof {
                    flat_fault_stays(all, i + 1, name@, *env);
                }
                return Err(e);
            },
        }
        i = i + 1;
    }
    assert(all.take(i as int) =~= all);
    Ok(out)
}

/// The texts of some shippers that may hold placeholders.
pub open spec fn shippers_values(c: Seq<(String, ShipperConfig)>) -> Seq<Seq<char>> {
    flat(c.map_values(|e: (String, ShipperConfig)| e.1.values()))
}

/// They are as many with the same names, and their placeholders are replaced.
pub open spec fn shippers_expand(
    a: Seq<(String, ShipperConfig)>,
    b: Seq<(String, ShipperConfig)>,
    name: Seq<char>,
    env: Environment,
) -> bool {
    &&& a.len() == b.len()
    &&& forall|i: int|
        0 <= i < a.len() ==> (#[trigger] a[i]).0@ == b[i].0@ && a[i].1.expands_to(
            b[i].1,
            name,
            env,
        )
}

fn resolve_shippers(c: &Vec<(String, ShipperConfig)>, name: &str, env: &Environment) -> (r: Result<
    Vec<(String, ShipperConfig)>,
>)
    ensures
        became(
            r,
            expand_all(shippers_values(c@), name@, *env),
            |x: Vec<(String, ShipperConfig)>| shippers_values(x@),
        ),
        r matches Ok(x) ==> shippers_expand(c@, x@, name@, *env),
{
    let ghost all = c@.map_values(|e: (String, ShipperConfig)| e.1.values());
    let mut out: Vec<(String, ShipperConfig)> = Vec::new();
    let mut i: usize = 0;
    proof {
        assert(all.take(0) =~= Seq::empty());
        assert(out@.map_values(|e: (String, ShipperConfig)| e.1.values()) =~= Seq::empty());
    }
    while i < c.len()
        invariant
            i <= c@.len(),
            all == c@.map_values(|e: (String, ShipperConfig)| e.1.values()),
            expand_all(flat(all.take(i as int)), name@, *env) == Ok::<Seq<Seq<char>>, Seq<char>>(
                shippers_values(out@),
            ),
            out@.len() == i,
            forall|k: int|
                0 <= k < i ==> (#[trigger] c@[k]).0@ == out@[k].0@ && c@[k].1.expands_to(
                    out@[k].1,
                    name@,
                    *env,
                ),
        decreases c@.len() - i,
    {
        let ghost before = out@.map_values(|e: (String, ShipperConfig)| e.1.values());
        proof {
            assert(all.take(i + 1).drop_last() =~= all.take(i as int));
            assert(all.take(i + 1).last() == c@[i as int].1.values());
            expand_joined(flat(all.take(i as int)), c@[i as int].1.values(), name@, *env);
        }
        match resolve_shipper(&c[i].1, name, env) {
            Ok(x) => {
                out.push((c[i].0.clone(), x));
                proof {
                    let after = out@.map_values(|e: (String, ShipperConfig)| e.1.values());
                    assert(after.drop_last() =~= before);
                    assert(after.last() == x.values());
                }
            },
            Err(e) => {
                proof {
                    flat_fault_stays(all, i + 1, name@, *env);
                }
                return Err(e);
            },
        }
        i = i + 1;
    }
    assert(all.take(i as int) =~= all);
    Ok(out)
}

// The configuration

impl Config {
    /// The texts of the components that may hold placeholders: those of the collectors, the
    /// forwarders and the shippers.
    pub open spec fn values(self) -> Seq<Seq<char>> {
        collectors_values(self.metrics.collectors@) + forwarders_values(self.metrics.forwarders@)
            + shippers_values(self.logs.shippers@)
    }

    /// Another one is this one with its placeholders replaced.
    pub open spec fn expands_to(self, other: Config, env: Environment) -> bool {
        let name = self.instance.name@;
        &&& other.instance.name@ == name
        &&& collectors_expand(self.metrics.collectors@, other.metrics.collectors@, name, env)
        &&& forwarders_expand(self.metrics.forwarders@, other.metrics.forwarders@, name, env)
        &&& shippers_expand(self.logs.shippers@, other.logs.shippers@, name, env)
    }

    /// The configuration with its placeholders replaced. Without a result the first text that
    /// cannot be expanded says why.
    pub open spec fn resolved(self, r: Result<Config>, env: Environment) -> bool {
        match expand_all(self.values(), self.instance.name@, env) {
            Err(m) => r matches Err(e) && e.is_config(m),
            Ok(_) => r matches Ok(c) && self.expands_to(c, env),
        }
    }

    /// Replaces the placeholders of every text that may hold some.
    pub fn resolve_placeholders(&self, env: &Environment) -> (r: Result<Config>)
        ensures
            self.resolved(r, *env),
    {
        let name = &self.instance.name;
        proof {
            let a = collectors_values(self.metrics.collectors@);
            let b = forwarders_values(self.metrics.forwarders@);
            expand_joined(a, b, name@, *env);
            expand_joined(a + b, shippers_values(self.logs.shippers@), name@, *env);
        }
        let collectors = match resolve_collectors(&self.metrics.collectors, name.as_str(), env) {
            Ok(x) => x,
            Err(e) => {
                return Err(e);
            },
        };
        let forwarders = match resolve_forwarders(&self.metrics.forwarders, name.as_str(), env) {
            Ok(x) => x,
            Err(e) => {
                return Err(e);
            },
        };
        let shippers = match resolve_shippers(&self.logs.shippers, name.as_str(), env) {
            Ok(x) => x,
            Err(e) => {
                return Err(e);
            },
        };
        Ok(
            Config {
                instance: InstanceConfig { name: name.clone() },
                metrics: MetricsConfig { collectors, forwarders },
                logs: LogsConfig { shippers },
            },
        )
    }
}

// Laws

/// Placeholders are replaced exactly where each text can be expanded; otherwise the first one
/// that cannot be says why.
pub proof fn texts_resolve_one_by_one(v: Seq<Seq<char>>, name: Seq<char>, env: Environment)
    ensures
        match expand_all(v, name, env) {
            Ok(x) => texts_expand(v, x, name, env),
            Err(m) => exists|i: int|
                0 <= i < v.len() && placeholder::expanded(#[trigger] v[i], name, env) == Err::<
                    Seq<char>,
                    Seq<char>,
                >(m) && forall|j: int|
                    0 <= j < i ==> placeholder::expanded(#[trigger] v[j], name, env) is Ok,
        },
    decreases v.len(),
{
    if v.len() > 0 {
        let before = v.drop_last();
        texts_resolve_one_by_one(before, name, env);
        assert(forall|i: int| 0 <= i < before.len() ==> #[trigger] v[i] == before[i]);
        match expand_all(before, name, env) {
            Ok(x) => {
                assert forall|i: int| 0 <= i < before.len() implies placeholder::expanded(
                    #[trigger] v[i],
                    name,
                    env,
                ) == Ok::<Seq<char>, Seq<char>>(x[i]) by {
                    assert(text_expands(before[i], x[i], name, env));
                }
                assert(v[v.len() - 1] == v.last());
            },
            Err(m) => {
                let i = choose|i: int|
                    0 <= i < before.len() && placeholder::expanded(#[trigger] before[i], name, env)
                        == Err::<Seq<char>, Seq<char>>(m) && forall|j: int|
                        0 <= j < i ==> placeholder::expanded(#[trigger] before[j], name, env) is Ok;
                assert(placeholder::expanded(v[i], name, env) == Err::<Seq<char>, Seq<char>>(m));
                assert forall|j: int| 0 <= j < i implies placeholder::expanded(
                    #[trigger] v[j],
                    name,
                    env,
                ) is Ok by {
                    assert(v[j] == before[j]);
                }
            },
        }
    }
}

} // verus!
