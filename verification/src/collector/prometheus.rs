//! Scraping an endpoint.
use std::sync::Arc;
use vstd::prelude::*;

use crate::collector::exposition::{self, Sample, SampleValue};
use crate::collector::label_cache::LabelCache;
use crate::config::PrometheusCollectorConfig;
use crate::error::{Error, Result};
use crate::http::Response;
use crate::labels::{self, Label, Labels};
use crate::ordered::{self, OrderedMap};
use crate::signal::{self, Metric, MetricType, NamePool, Value};
use crate::text;
use crate::time::Timestamp;

verus! {

// Samples

/// The number of a sample and its kind. What is untyped is a counter. Histograms and
/// summaries are several numbers, and are not forwarded.
pub open spec fn forwarded(v: SampleValue) -> Option<(u64, MetricType)> {
    match v {
        SampleValue::Counter(bits) => Some((bits, MetricType::Counter)),
        SampleValue::Gauge(bits) => Some((bits, MetricType::Gauge)),
        SampleValue::Untyped(bits) => Some((bits, MetricType::Counter)),
        SampleValue::Histogram => None,
        SampleValue::Summary => None,
    }
}

fn number_of(v: SampleValue) -> (r: Option<(u64, MetricType)>)
    ensures
        r == forwarded(v),
{
    match v {
        SampleValue::Counter(bits) => Some((bits, MetricType::Counter)),
        SampleValue::Gauge(bits) => Some((bits, MetricType::Gauge)),
        SampleValue::Untyped(bits) => Some((bits, MetricType::Counter)),
        SampleValue::Histogram => None,
        SampleValue::Summary => None,
    }
}

/// The time of a sample: none before 1970, and the present where 64 bits do not hold it.
pub open spec fn sample_time(s: Sample, now: int) -> int {
    match s.timestamp {
        Some(ns) => if ns < 0 {
            0
        } else {
            ns as int
        },
        None => now,
    }
}

/// A measurement says what a sample says, with the base labels on top.
pub open spec fn measures_sample(
    m: Metric,
    s: Sample,
    base: Map<Seq<char>, Seq<char>>,
    now: int,
) -> bool {
    match forwarded(s.value) {
        Some((bits, metric_type)) => {
            &&& m.name@ == s.metric@
            &&& m.labels@ == labels::overlaid(exposition::label_map(s.labels@), base)
            &&& m.value == (Value::Float { bits, divisor: 1 })
            &&& m.timestamp@ == sample_time(s, now)
            &&& m.metric_type == metric_type
        },
        None => false,
    }
}

/// The samples that are forwarded, in their order.
pub open spec fn kept_samples(s: Seq<Sample>) -> Seq<Sample>
    decreases s.len(),
{
    if s.len() == 0 {
        Seq::empty()
    } else if forwarded(s.last().value) is Some {
        kept_samples(s.drop_last()).push(s.last())
    } else {
        kept_samples(s.drop_last())
    }
}

/// The measurements of some samples: one for each that is forwarded, in their order.
pub open spec fn measures_samples(
    m: Seq<Metric>,
    s: Seq<Sample>,
    base: Map<Seq<char>, Seq<char>>,
    now: int,
) -> bool {
    &&& m.len() == kept_samples(s).len()
    &&& forall|i: int|
        0 <= i < m.len() ==> measures_sample(#[trigger] m[i], kept_samples(s)[i], base, now)
}

fn labels_of(pairs: &Vec<(String, String)>) -> (l: Labels)
    ensures
        l@ == exposition::label_map(pairs@),
{
    let mut l: Labels = OrderedMap::new();
    let mut i: usize = 0;
    assert(pairs@.take(0) =~= Seq::empty());
    while i < pairs.len()
        invariant
            i <= pairs@.len(),
            l@ == exposition::label_map(pairs@.take(i as int)),
        decreases pairs@.len() - i,
    {
        assert(pairs@.take(i + 1).drop_last() =~= pairs@.take(i as int));
        assert(pairs@.take(i + 1).last() == pairs@[i as int]);
        labels::set_label(&mut l, pairs[i].0.as_str(), pairs[i].1.as_str());
        i = i + 1;
    }
    assert(pairs@.take(i as int) =~= pairs@);
    l
}

// Requests

/// What came of a request.
pub enum Fetch {
    /// There was no answer, for a reason.
    Unsent(String),
    /// There was an answer.
    Answered(Response),
    /// There was an answer that succeeded, but its body could not be read, for a reason.
    Unread(String),
}

/// What came of a scrape, for the report: only changes are worth more than a word.
#[derive(Debug, Clone, Copy, PartialEq, Eq, Structural)]
pub enum Report {
    /// The endpoint is up, as it was.
    Up,
    /// The endpoint is up again, after this many failures.
    Recovered { failed_ticks: u64 },
    /// The endpoint is down.
    Down,
    /// The endpoint is still down, after this many failures.
    StillDown { failed_ticks: u64 },
}

/// The state of a scraper.
pub struct PrometheusScraper {
    name: String,
    url: String,
    auth_header: Option<String>,
    cache: LabelCache,
    health_labels: Arc<Labels>,
    last_up: Option<bool>,
    failed_ticks: u64,
}

/// What the state of a scraper says.
pub struct ScraperView {
    pub name: Seq<char>,
    pub url: Seq<char>,
    pub auth_header: Option<Seq<char>>,
    /// The labels of every metric that is scraped.
    pub base: Map<Seq<char>, Seq<char>>,
    /// The labels of the metrics on the scraper itself.
    pub health_labels: Map<Seq<char>, Seq<char>>,
    /// Whether the last scrape succeeded.
    pub last_up: Option<bool>,
    /// How many scrapes failed since the last one that succeeded.
    pub failed_ticks: nat,
}

impl View for PrometheusScraper {
    type V = ScraperView;

    closed spec fn view(&self) -> ScraperView {
        ScraperView {
            name: self.name@,
            url: self.url@,
            auth_header: match self.auth_header {
                Some(a) => Some(a@),
                None => None,
            },
            base: self.cache.base(),
            health_labels: self.health_labels@,
            last_up: self.last_up,
            failed_ticks: self.failed_ticks as nat,
        }
    }
}

impl ScraperView {
    /// One more failure. The count stops where 64 bits do not hold more.
    pub open spec fn more_failures(self) -> nat {
        if self.failed_ticks < u64::MAX {
            self.failed_ticks + 1
        } else {
            self.failed_ticks
        }
    }

    /// The state after a scrape.
    pub open spec fn after(self, up: bool) -> ScraperView {
        ScraperView {
            last_up: Some(up),
            failed_ticks: if up {
                0
            } else {
                self.more_failures()
            },
            ..self
        }
    }

    /// What is reported after a scrape: a change of the state, with the number of failures
    /// on recovery, and repeated failures.
    pub open spec fn report(self, up: bool) -> Report {
        match (up, self.last_up == Some(false)) {
            (true, true) => Report::Recovered { failed_ticks: self.failed_ticks as u64 },
            (true, false) => Report::Up,
            (false, true) => Report::StillDown { failed_ticks: self.more_failures() as u64 },
            (false, false) => Report::Down,
        }
    }
}

/// A measurement on the scraper itself.
pub open spec fn health_metric(
    m: Metric,
    name: Seq<char>,
    value: Value,
    labels: Map<Seq<char>, Seq<char>>,
    now: int,
) -> bool {
    &&& m.name@ == name
    &&& m.labels@ == labels
    &&& m.value == value
    &&& m.timestamp@ == now
    &&& m.metric_type == MetricType::Gauge
}

/// The measurements that every scrape ends with: whether the endpoint is up, how long the
/// scrape took, and how many samples there were.
pub open spec fn health_metrics(
    m: Seq<Metric>,
    up: bool,
    duration: u64,
    samples: u64,
    labels: Map<Seq<char>, Seq<char>>,
    now: int,
) -> bool {
    &&& m.len() == 3
    &&& health_metric(
        m[0],
        "up"@,
        Value::Whole(
            if up {
                1
            } else {
                0
            },
        ),
        labels,
        now,
    )
    &&& health_metric(
        m[1],
        "scrape_duration_seconds"@,
        Value::Float { bits: duration, divisor: 1 },
        labels,
        now,
    )
    &&& health_metric(m[2], "scrape_samples_scraped"@, Value::Whole(samples), labels, now)
}

impl PrometheusScraper {
    /// The label sets that are kept.
    pub closed spec fn kept(&self) -> Set<Seq<Label>> {
        self.cache.kept()
    }

    /// A scraper that has not scraped yet. The labels of what it scrapes are those that are
    /// configured, and nothing else.
    pub fn new(name: &str, config: &PrometheusCollectorConfig, auth_header: Option<String>) -> (s:
        PrometheusScraper)
        ensures
            s@ == (ScraperView {
                name: name@,
                url: config.url@,
                auth_header: match auth_header {
                    Some(a) => Some(a@),
                    None => None,
                },
                base: config.static_labels@,
                health_labels: labels::overlaid(
                    Map::empty().insert("scraper"@, name@),
                    config.static_labels@,
                ),
                last_up: None,
                failed_ticks: 0,
            }),
            exists|l: Seq<Label>|
                #[trigger] ordered::as_map(l) == s@.health_labels && s.kept() == Set::<
                    Seq<Label>,
                >::empty().insert(l),
    {
        let mut cache = LabelCache::new(labels::copied(&config.static_labels));
        let health_labels = cache.intern(labels::one_label("scraper", name));
        assert(ordered::as_map(health_labels.listing()) == health_labels@);
        PrometheusScraper {
            name: text::owned(name),
            url: config.url.clone(),
            auth_header,
            cache,
            health_labels,
            last_up: None,
            failed_ticks: 0,
        }
    }

    /// The name, for reports.
    pub fn name(&self) -> (r: &str)
        ensures
            r@ == self@.name,
    {
        self.name.as_str()
    }

    /// What is scraped.
    pub fn url(&self) -> (r: &str)
        ensures
            r@ == self@.url,
    {
        self.url.as_str()
    }

    /// The credentials of a request.
    pub fn auth_header(&self) -> (r: &Option<String>)
        ensures
            match *r {
                Some(a) => self@.auth_header == Some(a@),
                None => self@.auth_header is None,
            },
    {
        &self.auth_header
    }

    /// The body of an answer, or why there is none.
    pub open spec fn fetched(url: Seq<char>, f: Fetch) -> std::result::Result<Seq<char>, Seq<char>> {
        match f {
            Fetch::Unsent(e) => Err("scrape "@ + url + ": "@ + e@),
            Fetch::Answered(a) => if a.success() {
                Ok(a.body@)
            } else {
                Err("scrape "@ + url + ": HTTP "@ + a.status@)
            },
            Fetch::Unread(e) => Err("scrape "@ + url + ": body read: "@ + e@),
        }
    }

    /// The body of an answer, or why there is none.
    pub fn scrape(&self, f: Fetch) -> (r: Result<String>)
        ensures
            match Self::fetched(self@.url, f) {
                Ok(body) => r matches Ok(b) && b@ == body,
                Err(m) => r matches Err(Error::Collector(e)) && e@ == m,
            },
    {
        let url = self.url.as_str();
        match f {
            Fetch::Unsent(e) => Err(
                Error::Collector(text::cat4("scrape ", url, ": ", e.as_str())),
            ),
            Fetch::Answered(a) => if a.is_success() {
                Ok(a.body)
            } else {
                Err(Error::Collector(text::cat4("scrape ", url, ": HTTP ", a.status.as_str())))
            },
            Fetch::Unread(e) => Err(
                Error::Collector(text::cat4("scrape ", url, ": body read: ", e.as_str())),
            ),
        }
    }

    /// The measurement of a sample, where it is forwarded.
    pub fn sample_to_metric(&mut self, sample: &Sample, pool: &mut NamePool, now: Timestamp) -> (r:
        Option<Metric>)
        ensures
            final(self)@ == old(self)@,
            match r {
                Some(m) => measures_sample(m, *sample, old(self)@.base, now@)
                    && final(pool).names() == old(pool).names().insert(sample.metric@)
                    && final(self).kept() == old(self).kept().insert(m.labels.listing()),
                None => forwarded(sample.value) is None && *final(pool) == *old(pool)
                    && final(self).kept() == old(self).kept(),
            },
    {
        let (bits, metric_type) = match number_of(sample.value) {
            Some(x) => x,
            None => {
                return None;
            },
        };
        let labels = self.cache.intern(labels_of(&sample.labels));
        let timestamp = match sample.timestamp {
            Some(ns) => if ns < 0 {
                Timestamp { nanos: 0 }
            } else {
                Timestamp { nanos: ns as i128 }
            },
            None => now,
        };
        Some(
            Metric {
                name: signal::intern_name(pool, sample.metric.as_str()),
                labels,
                value: Value::Float { bits, divisor: 1 },
                timestamp,
                metric_type,
            },
        )
    }

    /// The measurements of some samples.
    pub fn samples_to_metrics(
        &mut self,
        samples: &Vec<Sample>,
        pool: &mut NamePool,
        now: Timestamp,
    ) -> (r: Vec<Metric>)
        ensures
            final(self)@ == old(self)@,
            measures_samples(r@, samples@, old(self)@.base, now@),
            final(pool).names() == old(pool).names().union(signal::names_of(r@)),
            final(self).kept() == old(self).kept().union(signal::label_sets_of(r@)),
    {
        let ghost base = self@.base;
        let ghost state = self@;
        let mut out: Vec<Metric> = Vec::new();
        let mut i: usize = 0;
        assert(samples@.take(0) =~= Seq::empty());
        assert(pool.names() =~= pool.names().union(signal::names_of(out@)));
        assert(self.kept() =~= self.kept().union(signal::label_sets_of(out@)));
        while i < samples.len()
            invariant
                i <= samples@.len(),
                self@ == state,
                pool.names() == old(pool).names().union(signal::names_of(out@)),
                self.kept() == old(self).kept().union(signal::label_sets_of(out@)),
                base == state.base,
                measures_samples(out@, samples@.take(i as int), base, now@),
            decreases samples@.len() - i,
        {
            assert(samples@.take(i + 1).drop_last() =~= samples@.take(i as int));
            assert(samples@.take(i + 1).last() == samples@[i as int]);
            match self.sample_to_metric(&samples[i], pool, now) {
                Some(m) => {
                    proof {
                        signal::one_more_measurement(out@, m);
                    }
                    out.push(m);
                    assert(pool.names() =~= old(pool).names().union(signal::names_of(out@)));
                    assert(self.kept() =~= old(self).kept().union(signal::label_sets_of(out@)));
                },
                None => {},
            }
            i = i + 1;
        }
        assert(samples@.take(i as int) =~= samples@);
        out
    }

    /// The measurements of what was scraped, with the number of samples, given what reading
    /// them came to.
    pub fn parsed(
        &mut self,
        samples: std::result::Result<Vec<Sample>, String>,
        pool: &mut NamePool,
        now: Timestamp,
    ) -> (r: Result<(Vec<Metric>, usize)>)
        ensures
            final(self)@ == old(self)@,
            match samples {
                Ok(s) => r matches Ok((m, n)) && n == s@.len() && measures_samples(
                    m@,
                    s@,
                    old(self)@.base,
                    now@,
                ) && final(pool).names() == old(pool).names().union(signal::names_of(m@))
                    && final(self).kept() == old(self).kept().union(signal::label_sets_of(m@)),
                Err(e) => r matches Err(Error::Collector(m)) && m@ == "parse scrape "@
                    + old(self)@.url + ": "@ + e@ && *final(pool) == *old(pool)
                    && final(self).kept() == old(self).kept(),
            },
    {
        match samples {
            Ok(s) => {
                let m = self.samples_to_metrics(&s, pool, now);
                Ok((m, s.len()))
            },
            Err(e) => Err(
                Error::Collector(
                    text::cat4("parse scrape ", self.url.as_str(), ": ", e.as_str()),
                ),
            ),
        }
    }

    /// The measurements of an answer, with the number of samples in it.
    pub fn scrape_and_parse(&mut self, f: Fetch, pool: &mut NamePool, now: Timestamp) -> (r: Result<
        (Vec<Metric>, usize),
    >)
        ensures
            final(self)@ == old(self)@,
            match Self::fetched(old(self)@.url, f) {
                Ok(body) => r matches Ok((m, n)) && (exists|s: Seq<Sample>|
                    {
                        &&& #[trigger] exposition::samples_of(s, exposition::exposed(body))
                        &&& n == s.len()
                        &&& measures_samples(m@, s, old(self)@.base, now@)
                    }) && final(pool).names() == old(pool).names().union(signal::names_of(m@))
                    && final(self).kept() == old(self).kept().union(signal::label_sets_of(m@)),
                Err(m) => r matches Err(Error::Collector(e)) && e@ == m && *final(pool) == *old(
                    pool,
                ) && final(self).kept() == old(self).kept(),
            },
    {
        match self.scrape(f) {
            Ok(body) => {
                let samples = exposition::parse(body.as_str());
                self.parsed(samples, pool, now)
            },
            Err(e) => Err(e),
        }
    }

    /// The measurements of a scrape: those of the samples, and then whether the endpoint is
    /// up, how long the scrape took (a double-precision number of seconds, by its bits) and
    /// how many samples there were. Where the scrape failed there are none of samples: no
    /// value is repeated.
    pub fn collect(
        &mut self,
        outcome: Result<(Vec<Metric>, usize)>,
        duration: u64,
        pool: &mut NamePool,
        now: Timestamp,
    ) -> (r: (Vec<Metric>, Report))
        ensures
            final(self)@ == old(self)@.after(outcome is Ok),
            final(self).kept() == old(self).kept(),
            r.1 == old(self)@.report(outcome is Ok),
            match outcome {
                Ok((m, n)) => r.0@.len() == m@.len() + 3 && r.0@.take(m@.len() as int) == m@
                    && health_metrics(
                    r.0@.skip(m@.len() as int),
                    true,
                    duration,
                    n as u64,
                    old(self)@.health_labels,
                    now@,
                ),
                Err(_) => health_metrics(
                    r.0@,
                    false,
                    duration,
                    0,
                    old(self)@.health_labels,
                    now@,
                ),
            },
            final(pool).names() == old(pool).names().insert("up"@).insert(
                "scrape_duration_seconds"@,
            ).insert("scrape_samples_scraped"@),
    {
        let ghost before = self@;
        let was_down = match self.last_up {
            Some(up) => !up,
            None => false,
        };
        let (mut metrics, samples, up): (Vec<Metric>, usize, bool) = match outcome {
            Ok((m, n)) => (m, n, true),
            Err(_) => (Vec::new(), 0, false),
        };
        let ghost scraped = metrics@;
        let report = if up {
            let failed_ticks: u64 = self.failed_ticks;
            self.failed_ticks = 0;
            if was_down {
                Report::Recovered { failed_ticks }
            } else {
                Report::Up
            }
        } else {
            if self.failed_ticks < u64::MAX {
                self.failed_ticks = self.failed_ticks + 1;
            }
            if was_down {
                Report::StillDown { failed_ticks: self.failed_ticks }
            } else {
                Report::Down
            }
        };
        self.last_up = Some(up);
        let one_or_none: u64 = if up {
            1
        } else {
            0
        };
        metrics.push(
            Metric::gauge(pool, "up", Value::Whole(one_or_none), self.health_labels.clone(), now),
        );
        metrics.push(
            Metric::gauge(
                pool,
                "scrape_duration_seconds",
                Value::Float { bits: duration, divisor: 1 },
                self.health_labels.clone(),
                now,
            ),
        );
        metrics.push(
            Metric::gauge(
                pool,
                "scrape_samples_scraped",
                Value::Whole(samples as u64),
                self.health_labels.clone(),
                now,
            ),
        );
        proof {
            let n = scraped.len() as int;
            assert(metrics@.take(n) =~= scraped);
            assert(metrics@[n]@.labels == self.health_labels.listing());
            assert(metrics@[n + 1]@.labels == self.health_labels.listing());
            assert(metrics@[n + 2]@.labels == self.health_labels.listing());
            let tail = metrics@.skip(n);
            assert(tail[0] == metrics@[n]);
            assert(tail[1] == metrics@[n + 1]);
            assert(tail[2] == metrics@[n + 2]);
            if n == 0 {
                assert(tail =~= metrics@);
            }
            assert(self@.last_up == before.after(up).last_up);
        }
        (metrics, report)
    }
}

// Laws

/// A report of a change is made exactly where the state changes: the endpoint is said to be
/// down once for each outage, and to have recovered once, with the number of failures since.
pub proof fn changes_are_reported_once(s: ScraperView, up: bool)
    ensures
        s.report(up) == Report::Down <==> !up && s.last_up != Some(false),
        s.report(up) is Recovered <==> up && s.last_up == Some(false),
        s.after(up).report(up) != Report::Down,
        !(s.after(up).report(up) is Recovered),
        !up ==> s.after(false).report(true) == (Report::Recovered {
            failed_ticks: s.more_failures() as u64,
        }),
{
}

/// Every counter, gauge and untyped number is forwarded, whatever its bits, with just these
/// bits; a sample is left out only where it is a histogram or a summary.
pub proof fn every_number_is_forwarded(bits: u64, v: SampleValue)
    ensures
        forwarded(SampleValue::Counter(bits)) == Some((bits, MetricType::Counter)),
        forwarded(SampleValue::Gauge(bits)) == Some((bits, MetricType::Gauge)),
        forwarded(SampleValue::Untyped(bits)) == Some((bits, MetricType::Counter)),
        forwarded(v) is None <==> v is Histogram || v is Summary,
{
}

/// The bits of a sample that is a number.
pub open spec fn bits_of(v: SampleValue) -> u64 {
    match v {
        SampleValue::Counter(bits) | SampleValue::Gauge(bits) | SampleValue::Untyped(bits) => bits,
        _ => 0,
    }
}

proof fn leading_numbers_are_kept(s: Seq<Sample>, n: int)
    requires
        0 <= n <= s.len(),
        forall|i: int|
            0 <= i < n ==> !((#[trigger] s[i]).value is Histogram || s[i].value is Summary),
        forall|i: int|
            n <= i < s.len() ==> (#[trigger] s[i]).value is Histogram || s[i].value is Summary,
    ensures
        kept_samples(s) == s.take(n),
    decreases s.len(),
{
    if s.len() > 0 {
        let t = s.drop_last();
        let last = s[s.len() - 1];
        if n == s.len() {
            assert forall|i: int| 0 <= i < n - 1 implies !((#[trigger] t[i]).value is Histogram
                || t[i].value is Summary) by {
                assert(t[i] == s[i]);
            }
            leading_numbers_are_kept(t, n - 1);
            assert(t.take(n - 1).push(last) =~= s.take(n));
        } else {
            assert forall|i: int| 0 <= i < n implies !((#[trigger] t[i]).value is Histogram
                || t[i].value is Summary) by {
                assert(t[i] == s[i]);
            }
            assert forall|i: int| n <= i < t.len() implies (#[trigger] t[i]).value is Histogram
                || t[i].value is Summary by {
                assert(t[i] == s[i]);
            }
            leading_numbers_are_kept(t, n);
            assert(t.take(n) =~= s.take(n));
        }
        assert(last == s.last());
    } else {
        assert(s.take(n) =~= Seq::empty());
    }
}

/// A scrape has a metric for every line with a single number, and no other: in the order of the
/// lines, each under the name of its line, with the value of its line bit by bit. A counter is
/// a counter, a gauge is a gauge, and what is untyped is a counter.
pub proof fn a_scrape_has_a_metric_for_each_number(
    m: Seq<Metric>,
    s: Seq<Sample>,
    lines: Seq<exposition::Line>,
    others: nat,
    base: Map<Seq<char>, Seq<char>>,
    now: int,
)
    requires
        exposition::samples_of(s, (lines, others)),
        measures_samples(m, s, base, now),
    ensures
        m.len() == lines.len(),
        forall|i: int|
            0 <= i < lines.len() ==> {
                &&& (#[trigger] m[i]).name@ == lines[i].metric
                &&& m[i].value == (Value::Float { bits: bits_of(s[i].value), divisor: 1 })
                &&& exposition::settled_bits(bits_of(s[i].value)) == bits_of(lines[i].value)
                &&& m[i].metric_type == MetricType::Gauge <==> lines[i].value is Gauge
                &&& m[i].metric_type == MetricType::Counter <==> lines[i].value is Counter
                    || lines[i].value is Untyped
            },
{
    leading_numbers_are_kept(s, lines.len() as int);
    assert forall|i: int| 0 <= i < lines.len() implies {
        &&& (#[trigger] m[i]).name@ == lines[i].metric
        &&& m[i].value == (Value::Float { bits: bits_of(s[i].value), divisor: 1 })
        &&& exposition::settled_bits(bits_of(s[i].value)) == bits_of(lines[i].value)
        &&& m[i].metric_type == MetricType::Gauge <==> lines[i].value is Gauge
        &&& m[i].metric_type == MetricType::Counter <==> lines[i].value is Counter
            || lines[i].value is Untyped
    } by {
        assert(measures_sample(m[i], kept_samples(s)[i], base, now));
        assert(kept_samples(s)[i] == s[i]);
        assert(exposition::says(s[i], lines[i]));
    }
}

/// A sample keeps its labels, but for those that the collector gives to everything, and its
/// time, where the line has one that lies in or after 1970.
pub proof fn a_sample_keeps_its_labels_and_time(
    m: Metric,
    s: Sample,
    base: Map<Seq<char>, Seq<char>>,
    now: int,
    label: Seq<char>,
)
    requires
        measures_sample(m, s, base, now),
    ensures
        base.dom().contains(label) ==> m.labels@.dom().contains(label) && m.labels@[label]
            == base[label],
        !base.dom().contains(label) && exposition::label_map(s.labels@).dom().contains(label)
            ==> m.labels@.dom().contains(label) && m.labels@[label] == exposition::label_map(
            s.labels@,
        )[label],
        !base.dom().contains(label) && !exposition::label_map(s.labels@).dom().contains(label)
            ==> !m.labels@.dom().contains(label),
        s.timestamp matches Some(ns) && ns >= 0 ==> m.timestamp@ == s.timestamp->0,
        s.timestamp matches Some(ns) && ns < 0 ==> m.timestamp@ == 0,
        s.timestamp is None ==> m.timestamp@ == now,
{
}

/// The health of a scrape reads `up` 1 after a success and 0 after a failure, with the time that
/// the scrape took and the number of its samples, as gauges with the labels of the scraper.
pub proof fn health_says_how_the_scrape_went(
    m: Seq<Metric>,
    up: bool,
    duration: u64,
    samples: u64,
    labels: Map<Seq<char>, Seq<char>>,
    now: int,
)
    requires
        health_metrics(m, up, duration, samples, labels, now),
    ensures
        m.len() == 3,
        m[0].name@ == "up"@,
        up ==> m[0].value == Value::Whole(1),
        !up ==> m[0].value == Value::Whole(0),
        m[1].name@ == "scrape_duration_seconds"@,
        m[1].value == (Value::Float { bits: duration, divisor: 1 }),
        m[2].name@ == "scrape_samples_scraped"@,
        m[2].value == Value::Whole(samples),
        forall|i: int|
            0 <= i < 3 ==> (#[trigger] m[i]).labels@ == labels && m[i].timestamp@ == now
                && m[i].metric_type == MetricType::Gauge,
{
}

/// The number of failures is that of the scrapes that failed since the last one that succeeded:
/// it starts over with a success, and grows by one with each failure.
pub proof fn failures_are_counted(s: ScraperView)
    ensures
        s.after(true).failed_ticks == 0,
        s.after(true).last_up == Some(true),
        s.failed_ticks < u64::MAX ==> s.after(false).failed_ticks == s.failed_ticks + 1,
        s.after(false).last_up == Some(false),
        s.last_up == Some(false) && s.failed_ticks <= u64::MAX ==> s.report(true) == (
        Report::Recovered { failed_ticks: s.failed_ticks as u64 }),
        s.last_up != Some(false) ==> s.report(true) == Report::Up && s.report(false)
            == Report::Down,
        s.last_up == Some(false) && s.failed_ticks < u64::MAX ==> s.report(false) == (
        Report::StillDown { failed_ticks: (s.failed_ticks + 1) as u64 }),
        s.after(true).url == s.url,
        s.after(true).base == s.base,
        s.after(false).health_labels == s.health_labels,
{
}

/// What is reported of an endpoint that cannot be scraped: an answer with a code from 200 to 299
/// is read, and any other is a failure, whatever its body says.
pub proof fn only_a_success_is_read(url: Seq<char>, answer: Response)
    ensures
        200 <= answer.code <= 299 ==> PrometheusScraper::fetched(url, Fetch::Answered(answer))
            == Ok::<Seq<char>, Seq<char>>(answer.body@),
        !(200 <= answer.code <= 299) ==> PrometheusScraper::fetched(
            url,
            Fetch::Answered(answer),
        ) is Err,
{
}

} // verus!
