//! The text format of Prometheus, by the `prometheus_parse` crate.
use prometheus_parse::{Scrape, Value};
use vstd::prelude::*;

verus! {

/// What a sample is. A number is given by the bits of its double-precision form.
#[derive(Debug, Clone, Copy, PartialEq, Eq, Structural)]
pub enum SampleValue {
    Counter(u64),
    Gauge(u64),
    Untyped(u64),
    Histogram,
    Summary,
}

/// A sample: its name, its value, its labels in no particular order, and its time in
/// nanoseconds since the start of 1970, where 64 bits hold that.
pub struct Sample {
    pub metric: String,
    pub value: SampleValue,
    pub labels: Vec<(String, String)>,
    pub timestamp: Option<i64>,
}

/// The labels that a list of pairs sets, one after the other.
pub open spec fn label_map(pairs: Seq<(String, String)>) -> Map<Seq<char>, Seq<char>>
    decreases pairs.len(),
{
    if pairs.len() == 0 {
        Map::empty()
    } else {
        label_map(pairs.drop_last()).insert(pairs.last().0@, pairs.last().1@)
    }
}

/// The bits of a number, with one form for all that are no number.
pub open spec fn settled_bits(bits: u64) -> u64 {
    if bits % 0x8000_0000_0000_0000 > 0x7ff0_0000_0000_0000 {
        0x7ff8_0000_0000_0000
    } else {
        bits
    }
}

/// The value of a sample, with one form for all numbers that are no number.
pub open spec fn settled(v: SampleValue) -> SampleValue {
    match v {
        SampleValue::Counter(b) => SampleValue::Counter(settled_bits(b)),
        SampleValue::Gauge(b) => SampleValue::Gauge(settled_bits(b)),
        SampleValue::Untyped(b) => SampleValue::Untyped(settled_bits(b)),
        other => other,
    }
}

/// What a line with a single number says: the time only where the line has one.
pub struct Line {
    pub metric: Seq<char>,
    pub value: SampleValue,
    pub labels: Map<Seq<char>, Seq<char>>,
    pub timestamp: Option<Option<i64>>,
}

/// A sample says what a line says.
pub open spec fn says(s: Sample, l: Line) -> bool {
    &&& s.metric@ == l.metric
    &&& settled(s.value) == l.value
    &&& label_map(s.labels@) == l.labels
    &&& l.timestamp matches Some(t) ==> s.timestamp == t
}

/// What a text holds: the lines with a single number, in their order, and how many
/// histograms and summaries there are.
pub uninterp spec fn exposed(text: Seq<char>) -> (Seq<Line>, nat);

/// The samples of a text: one for each line with a single number, in their order, and then
/// the histograms and summaries.
pub open spec fn samples_of(s: Seq<Sample>, e: (Seq<Line>, nat)) -> bool {
    &&& s.len() == e.0.len() + e.1
    &&& forall|i: int| 0 <= i < e.0.len() ==> says(#[trigger] s[i], e.0[i])
    &&& forall|i: int|
        0 <= i < e.0.len() ==> !((#[trigger] s[i]).value is Histogram || s[i].value is Summary)
    &&& forall|i: int|
        e.0.len() <= i < s.len() ==> (#[trigger] s[i]).value is Histogram || s[i].value is Summary
}

/// Reads the samples of a text (`prometheus_parse::Scrape::parse`, over the lines of the
/// text). Lines from memory never fail to be read, so that there is always a result. A line
/// with a single number gives the sample that it spells out, which depends on the text alone
/// but for the time: a line without one has the time of the call. Histograms and summaries
/// follow, as many as the text has, in an order of their own. What the lines say is left to
/// the crate.
#[verifier::external_body]
pub(crate) fn parse(text: &str) -> (r: std::result::Result<Vec<Sample>, String>)
    ensures
        r is Ok,
        samples_of(r->Ok_0@, exposed(text@)),
{
    let lines = text.lines().map(|l| Ok(l.to_string()));
    let scrape = Scrape::parse(lines).map_err(|e| e.to_string())?;
    Ok(scrape.samples.into_iter().map(|s| Sample {
        value: match s.value {
            Value::Counter(v) => SampleValue::Counter(v.to_bits()),
            Value::Gauge(v) => SampleValue::Gauge(v.to_bits()),
            Value::Untyped(v) => SampleValue::Untyped(v.to_bits()),
            Value::Histogram(_) => SampleValue::Histogram,
            Value::Summary(_) => SampleValue::Summary,
        },
        labels: (*s.labels).clone().into_iter().collect(),
        metric: s.metric,
        timestamp: s.timestamp.timestamp_nanos_opt(),
    }).collect())
}

/// The labels of a sample are the pairs of its list: a name that stands there once has the value
/// beside it.
pub proof fn labels_are_the_pairs(pairs: Seq<(String, String)>, i: int)
    requires
        0 <= i < pairs.len(),
        forall|j: int| 0 <= j < pairs.len() && j != i ==> (#[trigger] pairs[j]).0@ != pairs[i].0@,
    ensures
        label_map(pairs).dom().contains(pairs[i].0@),
        label_map(pairs)[pairs[i].0@] == pairs[i].1@,
    decreases pairs.len(),
{
    let t = pairs.drop_last();
    if i < t.len() {
        assert forall|j: int| 0 <= j < t.len() && j != i implies (#[trigger] t[j]).0@ != t[i].0@ by {
            assert(t[j] == pairs[j]);
        }
        labels_are_the_pairs(t, i);
        assert(pairs[pairs.len() - 1].0@ != pairs[i].0@);
    }
}

/// A number keeps its bits, infinities and zeros of either sign among them; only what is no
/// number has one form for all.
pub proof fn numbers_keep_their_bits(bits: u64)
    ensures
        bits % 0x8000_0000_0000_0000 <= 0x7ff0_0000_0000_0000 ==> settled_bits(bits) == bits,
        bits % 0x8000_0000_0000_0000 > 0x7ff0_0000_0000_0000 ==> settled_bits(bits)
            == 0x7ff8_0000_0000_0000,
{
}

} // verus!
