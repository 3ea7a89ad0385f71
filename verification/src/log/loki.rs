//! The sink: Loki's push API.
use vstd::prelude::*;

use crate::config::LokiSinkConfig;
use crate::error::{Error, Result};
use crate::grouping;
use crate::http::{self, Response};
use crate::labels::{self, Label, Labels};
use crate::log::shipper::{self, Outcome};
use crate::log::source::{self, EntryView, LogEntry};
use crate::number;
use crate::ordered::{self, Key, OrderedMap};
use crate::text;
use crate::time::{self, Timestamp};

verus! {

// Label sets as texts

/// A character of a label value: backslashes, quotes and line feeds are escaped.
pub open spec fn escaped_char(c: char) -> Seq<char> {
    if c == '\\' {
        seq!['\\', '\\']
    } else if c == '"' {
        seq!['\\', '"']
    } else if c == '\n' {
        seq!['\\', 'n']
    } else {
        seq![c]
    }
}

/// A label value with its special characters escaped.
pub open spec fn escaped(v: Seq<char>) -> Seq<char>
    decreases v.len(),
{
    if v.len() == 0 {
        Seq::empty()
    } else {
        escaped(v.drop_last()) + escaped_char(v.last())
    }
}

/// A label: `name="value"`.
pub open spec fn label_text(l: Label) -> Seq<char> {
    l.0 + "=\""@ + escaped(l.1) + "\""@
}

/// Labels with commas between them.
pub open spec fn labels_text(l: Seq<Label>) -> Seq<char>
    decreases l.len(),
{
    if l.len() == 0 {
        Seq::empty()
    } else if l.len() == 1 {
        label_text(l[0])
    } else {
        labels_text(l.drop_last()) + ","@ + label_text(l.last())
    }
}

/// A label set: `{k1="v1",k2="v2"}`.
pub open spec fn label_string(l: Seq<Label>) -> Seq<char> {
    "{"@ + labels_text(l) + "}"@
}

fn escape(v: &str) -> (r: String)
    ensures
        r@ == escaped(v@),
{
    let c = text::chars_of(v);
    let mut out = String::new();
    let mut i: usize = 0;
    assert(out@ =~= escaped(c@.take(0)));
    while i < c.len()
        invariant
            i <= c@.len(),
            out@ == escaped(c@.take(i as int)),
        decreases c@.len() - i,
    {
        assert(c@.take(i + 1).drop_last() =~= c@.take(i as int));
        assert(c@.take(i + 1).last() == c@[i as int]);
        let ghost before = out@;
        match c[i] {
            '\\' => {
                out.push('\\');
                out.push('\\');
            },
            '"' => {
                out.push('\\');
                out.push('"');
            },
            '\n' => {
                out.push('\\');
                out.push('n');
            },
            x => {
                out.push(x);
            },
        }
        assert(out@ =~= before + escaped_char(c@[i as int]));
        i = i + 1;
    }
    assert(c@.take(i as int) =~= c@);
    out
}

/// A label set as a text, as Prometheus writes it.
pub fn format_label_string(labels: &Labels) -> (r: String)
    ensures
        r@ == label_string(labels.listing()),
{
    let n: usize = labels.len();
    let ghost all = labels.listing();
    let mut out = text::owned("{");
    let mut i: usize = 0;
    assert(out@ =~= "{"@ + labels_text(all.take(0)));
    while i < n
        invariant
            i <= n,
            n == all.len(),
            all == labels.listing(),
            out@ == "{"@ + labels_text(all.take(i as int)),
        decreases n - i,
    {
        let ghost before = all.take(i as int);
        let ghost after = all.take(i + 1);
        assert(after.drop_last() =~= before);
        assert(after.last() == all[i as int]);
        let ghost had = out@;
        if i > 0 {
            out.append(",");
        }
        let value = escape(labels.value_at(i).as_str());
        out.append(labels.key_at(i).as_str());
        out.append("=\"");
        out.append(value.as_str());
        out.append("\"");
        proof {
            let l = label_text(all[i as int]);
            if i > 0 {
                assert(out@ =~= had + (","@ + l));
                assert(labels_text(after) == labels_text(before) + ","@ + l);
                assert(out@ =~= "{"@ + labels_text(after));
            } else {
                assert(after[0] == all[0]);
                assert(labels_text(before) =~= Seq::empty());
                assert(out@ =~= "{"@ + l);
            }
        }
        i = i + 1;
    }
    assert(all.take(n as int) =~= all);
    out.append("}");
    out
}

// Streams

/// An entry of a stream: its time in seconds and nanoseconds, its line and its metadata.
pub struct StreamEntry {
    pub seconds: i64,
    pub nanos: i32,
    pub line: String,
    pub metadata: Vec<(String, String)>,
}

/// What an entry of a stream says.
#[verifier::ext_equal]
pub struct StreamEntryView {
    pub seconds: int,
    pub nanos: int,
    pub line: Seq<char>,
    pub metadata: Seq<Label>,
}

/// What a list of pairs says.
pub open spec fn pair_views(p: Seq<(String, String)>) -> Seq<Label> {
    p.map_values(|x: (String, String)| (x.0@, x.1@))
}

impl View for StreamEntry {
    type V = StreamEntryView;

    open spec fn view(&self) -> StreamEntryView {
        StreamEntryView {
            seconds: self.seconds as int,
            nanos: self.nanos as int,
            line: self.line@,
            metadata: pair_views(self.metadata@),
        }
    }
}

/// A stream: a label set as a text, and the entries with it.
pub struct Stream {
    pub labels: String,
    pub entries: Vec<StreamEntry>,
}

/// What a stream says.
#[verifier::ext_equal]
pub struct StreamView {
    pub labels: Seq<char>,
    pub entries: Seq<StreamEntryView>,
}

/// What a list of stream entries says.
pub open spec fn stream_entry_views(e: Seq<StreamEntry>) -> Seq<StreamEntryView> {
    e.map_values(|x: StreamEntry| x@)
}

impl View for Stream {
    type V = StreamView;

    open spec fn view(&self) -> StreamView {
        StreamView { labels: self.labels@, entries: stream_entry_views(self.entries@) }
    }
}

/// What a list of streams says.
pub open spec fn stream_views(s: Seq<Stream>) -> Seq<StreamView> {
    s.map_values(|x: Stream| x@)
}

/// The whole seconds of a point in time, none before 1970. What 64 bits do not hold counts
/// as the last second that they do.
pub open spec fn whole_seconds(t: int) -> int {
    let s = time::since_epoch(t) as int / 1_000_000_000;
    if s <= i64::MAX {
        s
    } else {
        i64::MAX as int
    }
}

/// A log entry as an entry of a stream.
pub open spec fn adapted(e: EntryView) -> StreamEntryView {
    StreamEntryView {
        seconds: whole_seconds(e.timestamp),
        nanos: time::since_epoch(e.timestamp) as int % 1_000_000_000,
        line: e.message,
        metadata: e.metadata,
    }
}

fn seconds_of(t: Timestamp) -> (r: i64)
    ensures
        r == whole_seconds(t@),
{
    if t.nanos < 0 {
        return 0;
    }
    let s: i128 = t.nanos / 1_000_000_000;
    if s <= i64::MAX as i128 {
        s as i64
    } else {
        i64::MAX
    }
}

fn nanos_of(t: Timestamp) -> (r: i32)
    ensures
        r == time::since_epoch(t@) as int % 1_000_000_000,
{
    if t.nanos < 0 {
        0
    } else {
        (t.nanos % 1_000_000_000) as i32
    }
}

fn pairs_of(l: &Labels) -> (r: Vec<(String, String)>)
    ensures
        pair_views(r@) == l.listing(),
{
    let n: usize = l.len();
    let ghost all = l.listing();
    let mut out: Vec<(String, String)> = Vec::new();
    let mut i: usize = 0;
    assert(pair_views(out@) =~= all.take(0));
    while i < n
        invariant
            i <= n,
            n == all.len(),
            all == l.listing(),
            pair_views(out@) == all.take(i as int),
        decreases n - i,
    {
        let ghost before = pair_views(out@);
        out.push((l.key_at(i).clone(), l.value_at(i).clone()));
        assert(pair_views(out@) =~= before.push(all[i as int]));
        assert(all.take(i + 1) =~= all.take(i as int).push(all[i as int]));
        i = i + 1;
    }
    assert(all.take(n as int) =~= all);
    out
}

fn adapt(e: &LogEntry) -> (r: StreamEntry)
    ensures
        r@ == adapted(e@),
{
    StreamEntry {
        seconds: seconds_of(e.timestamp),
        nanos: nanos_of(e.timestamp),
        line: e.message.clone(),
        metadata: pairs_of(&e.metadata),
    }
}

/// The entries with a label set, in their order.
pub open spec fn streamed(e: Seq<EntryView>, set: Seq<Label>) -> Seq<StreamEntryView> {
    grouping::members(e, |x: EntryView| x.labels, |x: EntryView| adapted(x), set)
}

/// The streams of some entries: one for each of their label sets, in the order of the label
/// sets, with the entries that have it. `sets` are the label sets.
pub open spec fn streams_by(s: Seq<StreamView>, sets: Seq<Seq<Label>>, e: Seq<EntryView>) -> bool {
    &&& ordered::ascending::<Labels>(sets)
    &&& forall|set: Seq<Label>|
        #![trigger sets.contains(set)]
        sets.contains(set) <==> streamed(e, set).len() > 0
    &&& s == sets.map_values(
        |set: Seq<Label>| StreamView { labels: label_string(set), entries: streamed(e, set) },
    )
}

/// The streams of some entries.
pub open spec fn streams_of(s: Seq<StreamView>, e: Seq<EntryView>) -> bool {
    exists|sets: Seq<Seq<Label>>| #[trigger] streams_by(s, sets, e)
}

spec fn groups_hold(g: Map<Seq<Label>, Seq<StreamEntry>>, e: Seq<EntryView>) -> bool {
    forall|set: Seq<Label>|
        #![trigger g.dom().contains(set)]
        #![trigger streamed(e, set)]
        (g.dom().contains(set) <==> streamed(e, set).len() > 0) && stream_entry_views(
            ordered::group(g, set),
        ) == streamed(e, set)
}

fn group_by_labels(entries: &[LogEntry]) -> (g: OrderedMap<Labels, Vec<StreamEntry>>)
    ensures
        groups_hold(g@, source::entry_views(entries@)),
{
    let ghost all = source::entry_views(entries@);
    let mut g: OrderedMap<Labels, Vec<StreamEntry>> = OrderedMap::new();
    let mut i: usize = 0;
    proof {
        assert forall|set: Seq<Label>| stream_entry_views(
            #[trigger] ordered::group(g@, set),
        ) =~= streamed(all.take(0), set) by {}
    }
    while i < entries.len()
        invariant
            i <= entries@.len(),
            all == source::entry_views(entries@),
            groups_hold(g@, all.take(i as int)),
        decreases entries@.len() - i,
    {
        let ghost before = g@;
        let ghost m = all.take(i as int);
        let ghost n = all.take(i + 1);
        let key = labels::copied(&entries[i].labels);
        let item = adapt(&entries[i]);
        let ghost set = key.listing();
        assert(n.drop_last() =~= m);
        assert(n.last() == entries@[i as int]@);
        g.push(key, item);
        proof {
            let had = ordered::group(before, set);
            assert(stream_entry_views(had) == streamed(m, set)) by {
                assert(before.dom().contains(set) || !before.dom().contains(set));
            }
            assert(stream_entry_views(had.push(item)) =~= stream_entry_views(had).push(item@));
            assert forall|k: Seq<Label>|
                (g@.dom().contains(k) <==> streamed(n, k).len() > 0) && stream_entry_views(
                    ordered::group(g@, k),
                ) == streamed(n, k) by {
                assert(before.dom().contains(k) || !before.dom().contains(k));
                if k != set {
                    assert(ordered::group(g@, k) == ordered::group(before, k));
                }
            }
        }
        i = i + 1;
    }
    assert(all.take(i as int) =~= all);
    g
}

/// The streams of some entries.
pub fn build_streams(entries: &[LogEntry]) -> (r: Vec<Stream>)
    ensures
        streams_of(stream_views(r@), source::entry_views(entries@)),
{
    let ghost all = source::entry_views(entries@);
    let by_stream = group_by_labels(entries);
    let ghost g = by_stream@;
    let ghost l = by_stream.listing();
    let list = by_stream.into_entries();
    proof {
        ordered::ascending_distinct::<Labels, Seq<StreamEntry>>(l);
    }
    let ghost raw = list@;
    let mut out: Vec<Stream> = Vec::new();
    for e in it: list
        invariant
            it.seq() == raw,
            raw.len() == l.len(),
            forall|k: int|
                0 <= k < l.len() ==> #[trigger] l[k] == (raw[k].0.listing(), raw[k].1@),
            g == ordered::as_map(l),
            groups_hold(g, all),
            forall|x: int, y: int|
                0 <= x < l.len() && 0 <= y < l.len() && (#[trigger] l[x]).0 == (#[trigger] l[y]).0
                    ==> x == y,
            out@.len() == it.index(),
            forall|k: int|
                0 <= k < it.index() ==> (#[trigger] out@[k])@ == (StreamView {
                    labels: label_string(l[k].0),
                    entries: streamed(all, l[k].0),
                }),
    {
        let (labels, entries) = e;
        let text = format_label_string(&labels);
        proof {
            let i = it.index() as int;
            let set = l[i].0;
            assert(l[i] == (raw[i].0.listing(), raw[i].1@));
            assert(ordered::has_key(l, set));
            assert(ordered::key_index(l, set) == i) by {
                let k = ordered::key_index(l, set);
                assert(l[k].0 == l[i].0);
            }
            assert(g.dom().contains(set));
            assert(ordered::group(g, set) == entries@);
        }
        out.push(Stream { labels: text, entries });
    }
    proof {
        let sets = ordered::firsts(l);
        let views = stream_views(out@);
        assert forall|set: Seq<Label>| #[trigger] sets.contains(set) <==> streamed(all, set).len()
            > 0 by {
            assert(g.dom().contains(set) <==> streamed(all, set).len() > 0);
            if sets.contains(set) {
                let k = choose|k: int| 0 <= k < sets.len() && sets[k] == set;
                assert(l[k].0 == set);
                assert(ordered::has_key(l, set));
            }
            if ordered::has_key(l, set) {
                let k = ordered::key_index(l, set);
                assert(sets[k] == set);
            }
        }
        assert(views =~= sets.map_values(
            |set: Seq<Label>|
                StreamView { labels: label_string(set), entries: streamed(all, set) },
        ));
        assert(streams_by(views, sets, all));
    }
    out
}

// Bodies

/// Bytes that snappy takes: they and what they may grow to have lengths of 32 bits.
pub open spec fn snappy_takes(n: int) -> bool {
    n <= 4_294_967_295 && 32 + n + n / 6 <= 4_294_967_295
}

/// The reason why snappy does not take some bytes.
pub open spec fn snappy_refusal(n: nat) -> Seq<char> {
    "snappy: input buffer (size = "@ + number::decimal(n)
        + ") is larger than allowed (size = 4294967295)"@
}

/// Bytes in snappy's block format.
pub uninterp spec fn snappied(bytes: Seq<u8>) -> Seq<u8>;

/// Compresses bytes to snappy's block format (`snap::raw::Encoder::compress_vec`). It fails
/// exactly where the bytes are too long, and says so; else the result depends on the bytes
/// alone. What the compressed bytes are is left to the crate.
#[verifier::external_body]
fn snappy(bytes: &Vec<u8>) -> (r: std::result::Result<Vec<u8>, String>)
    ensures
        match r {
            Ok(v) => snappy_takes(bytes@.len() as int) && v@ == snappied(bytes@),
            Err(e) => !snappy_takes(bytes@.len() as int) && e@ == snappy_refusal(bytes@.len()),
        },
{
    snap::raw::Encoder::new().compress_vec(bytes).map_err(|e| e.to_string())
}

/// The body of a request, given what compressing it came to.
pub fn compressed_body(compressed: std::result::Result<Vec<u8>, String>) -> (r: Result<Vec<u8>>)
    ensures
        match compressed {
            Ok(v) => r matches Ok(body) && body@ == v@,
            Err(e) => r matches Err(Error::Sink(m)) && m@ == "snappy compress: "@ + e@,
        },
{
    match compressed {
        Ok(v) => Ok(v),
        Err(e) => Err(Error::Sink(text::cat2("snappy compress: ", e.as_str()))),
    }
}

/// The body of a request.
pub fn compress(bytes: &Vec<u8>) -> (r: Result<Vec<u8>>)
    ensures
        if snappy_takes(bytes@.len() as int) {
            r matches Ok(body) && body@ == snappied(bytes@)
        } else {
            r matches Err(Error::Sink(m)) && m@ == "snappy compress: "@ + snappy_refusal(
                bytes@.len(),
            )
        },
{
    compressed_body(snappy(bytes))
}

// Answers

/// The answer says that the request is over a size limit, so that the same request can never
/// succeed: the code for that, or words for it. Loki reports the limit of its inner messages
/// as an internal error with such words.
pub open spec fn too_large(code: u16, body: Seq<char>) -> bool {
    let b = text::lowered(body);
    code == 413 || text::holds(b, "larger than max"@) || text::holds(b, "too large"@) || text::holds(
        b,
        "too big"@,
    ) || text::holds(b, "exceeds the maximum"@)
}

/// Whether an answer says that the request is over a size limit.
pub fn is_payload_too_large(code: u16, body: &str) -> (r: bool)
    ensures
        r == too_large(code, body@),
{
    if code == 413 {
        return true;
    }
    let b = text::to_lower(body);
    text::contains(b.as_str(), "larger than max") || text::contains(b.as_str(), "too large")
        || text::contains(b.as_str(), "too big") || text::contains(
        b.as_str(),
        "exceeds the maximum",
    )
}

/// A text on one line: every run of white space is one space, and there is none at the ends.
pub open spec fn folded(s: Seq<char>) -> Seq<char>
    decreases s.len(),
{
    if s.len() == 0 {
        Seq::empty()
    } else {
        let before = folded(s.drop_last());
        if text::is_white(s.last()) {
            before
        } else if before.len() > 0 && text::is_white(s[s.len() - 2]) {
            before.push(' ').push(s.last())
        } else {
            before.push(s.last())
        }
    }
}

/// A body as it is reported: on one line, and no longer than 300 characters.
pub open spec fn reported(body: Seq<char>) -> Seq<char> {
    let f = folded(body);
    if f.len() > 300 {
        f.take(300)
    } else {
        f
    }
}

fn fold(s: &str) -> (r: String)
    ensures
        r@ == folded(s@),
{
    let v = text::chars_of(s);
    let mut out = String::new();
    let mut empty = true;
    let mut i: usize = 0;
    assert(out@ =~= folded(v@.take(0)));
    while i < v.len()
        invariant
            i <= v@.len(),
            out@ == folded(v@.take(i as int)),
            empty == (out@.len() == 0),
        decreases v@.len() - i,
    {
        let ghost p = v@.take(i + 1);
        assert(p.drop_last() =~= v@.take(i as int));
        assert(p.last() == v@[i as int]);
        if i > 0 {
            assert(p[p.len() - 2] == v@[i - 1]);
        }
        if !text::white(v[i]) {
            if !empty && text::white(v[i - 1]) {
                out.push(' ');
            }
            out.push(v[i]);
            empty = false;
        }
        i = i + 1;
    }
    assert(v@.take(i as int) =~= v@);
    out
}

fn report(body: &str) -> (r: String)
    ensures
        r@ == reported(body@),
{
    let f = fold(body);
    let v = text::chars_of(f.as_str());
    if v.len() > 300 {
        let r = text::text_of(&v, 0, 300);
        assert(r@ =~= f@.take(300));
        r
    } else {
        f
    }
}

/// What an answer means: success, a request that is too large, entries that are invalid, or a
/// failure after which the request can be sent again.
pub open spec fn answer(response: Response, r: Result<()>) -> bool {
    let message = "HTTP "@ + response.status@ + ": "@ + reported(response.body@);
    if response.success() {
        r is Ok
    } else if too_large(response.code, text::trimmed(response.body@)) {
        r matches Err(Error::SinkPayloadTooLarge(m)) && m@ == message
    } else if response.code == 400 {
        r matches Err(Error::SinkRejected(m)) && m@ == message
    } else {
        r matches Err(Error::Sink(m)) && m@ == message
    }
}

/// Tells what an answer means. Loki checks each entry: of a request with invalid ones it takes
/// the valid ones, drops the others and answers with the code 400.
pub fn check_response(response: &Response) -> (r: Result<()>)
    ensures
        answer(*response, r),
{
    if response.is_success() {
        return Ok(());
    }
    let body = text::trim(response.body.as_str());
    let line = report(response.body.as_str());
    let message = text::cat4("HTTP ", response.status.as_str(), ": ", line.as_str());
    if is_payload_too_large(response.code, body.as_str()) {
        Err(Error::SinkPayloadTooLarge(message))
    } else if response.code == 400 {
        Err(Error::SinkRejected(message))
    } else {
        Err(Error::Sink(message))
    }
}

/// The address of the push API.
pub fn normalize_endpoint(raw: &str) -> (r: String)
    ensures
        r@ == http::api_address(raw@, "/loki/api/v1/push"@),
{
    http::with_api_path(raw, "/loki/api/v1/push")
}

/// A sink.
pub struct LokiSink {
    name: String,
    endpoint: String,
    auth_header: Option<String>,
}

impl LokiSink {
    /// The name, for reports.
    pub closed spec fn called(&self) -> Seq<char> {
        self.name@
    }

    /// Where requests go.
    pub closed spec fn address(&self) -> Seq<char> {
        self.endpoint@
    }

    /// The credentials.
    pub closed spec fn auth(&self) -> Option<Seq<char>> {
        match self.auth_header {
            Some(a) => Some(a@),
            None => None,
        }
    }

    /// A sink at an endpoint.
    pub fn new(name: &str, config: &LokiSinkConfig, auth_header: Option<String>) -> (s: LokiSink)
        ensures
            s.called() == name@,
            s.address() == http::api_address(config.endpoint@, "/loki/api/v1/push"@),
            s.auth() == match auth_header {
                Some(a) => Some(a@),
                None => None,
            },
    {
        LokiSink {
            name: text::owned(name),
            endpoint: normalize_endpoint(config.endpoint.as_str()),
            auth_header,
        }
    }

    /// The name, for reports.
    pub fn name(&self) -> (r: &str)
        ensures
            r@ == self.called(),
    {
        self.name.as_str()
    }

    /// Where requests go.
    pub fn endpoint(&self) -> (r: &str)
        ensures
            r@ == self.address(),
    {
        self.endpoint.as_str()
    }

    /// The headers of a request.
    pub fn headers(&self) -> (r: Vec<(&'static str, String)>)
        ensures
            http::header_views(r@) == http::protobuf_headers(Some("snappy"@), self.auth()),
    {
        http::headers(Some("snappy"), &self.auth_header)
    }

    /// The streams of a request. Without entries there is no request.
    pub fn streams(&self, entries: &[LogEntry]) -> (r: Option<Vec<Stream>>)
        ensures
            match r {
                Some(s) => entries@.len() > 0 && streams_of(
                    stream_views(s@),
                    source::entry_views(entries@),
                ),
                None => entries@.len() == 0,
            },
    {
        if entries.len() == 0 {
            None
        } else {
            Some(build_streams(entries))
        }
    }
}

// Laws

proof fn folding_leaves_single_spaces(s: Seq<char>)
    ensures
        folded(s).len() > 0 ==> !text::is_white(folded(s).last()),
        forall|i: int|
            0 <= i < folded(s).len() && text::is_white(#[trigger] folded(s)[i]) ==> folded(s)[i]
                == ' ' && i > 0 && !text::is_white(folded(s)[i - 1]),
    decreases s.len(),
{
    if s.len() > 0 {
        folding_leaves_single_spaces(s.drop_last());
    }
}

/// What is reported of a body stays on one line and is short: at most 300 characters, whose
/// only white space is single spaces between words.
pub proof fn reported_body_is_one_short_line(body: Seq<char>)
    ensures
        reported(body).len() <= 300,
        forall|i: int|
            0 <= i < reported(body).len() && text::is_white(#[trigger] reported(body)[i])
                ==> reported(body)[i] == ' ' && i > 0 && !text::is_white(reported(body)[i - 1]),
        !reported(body).contains('\n'),
{
    folding_leaves_single_spaces(body);
    let f = folded(body);
    let r = reported(body);
    assert forall|i: int| 0 <= i < r.len() && text::is_white(#[trigger] r[i]) implies r[i] == ' '
        && i > 0 && !text::is_white(r[i - 1]) by {
        assert(r[i] == f[i]);
        if i > 0 {
            assert(r[i - 1] == f[i - 1]);
        }
    }
    if r.contains('\n') {
        let i = choose|i: int| 0 <= i < r.len() && r[i] == '\n';
        assert(text::is_white(r[i]));
    }
}

/// What an answer of Loki means to the shipper: a request that is too large is split, one with
/// invalid entries is settled, and any other failure is tried again.
pub proof fn answer_decides_the_outcome(response: Response, r: Result<()>)
    requires
        answer(response, r),
    ensures
        shipper::outcome_of(r) == if response.success() {
            Outcome::Delivered
        } else if too_large(response.code, text::trimmed(response.body@)) {
            Outcome::TooLarge
        } else if response.code == 400 {
            Outcome::Rejected
        } else {
            Outcome::Failed
        },
{
}

/// How many entries some streams have.
pub open spec fn entry_count(s: Seq<StreamView>) -> nat {
    grouping::total(s.map_values(|x: StreamView| x.entries.len()))
}

/// Every entry is in the stream of its labels, and the streams have as many entries as there
/// are: none is lost, and none is sent twice.
pub proof fn every_entry_is_pushed(s: Seq<StreamView>, e: Seq<EntryView>)
    requires
        streams_of(s, e),
    ensures
        entry_count(s) == e.len(),
        forall|i: int|
            0 <= i < e.len() ==> exists|k: int|
                0 <= k < s.len() && (#[trigger] s[k]).labels == label_string((#[trigger] e[i]).labels)
                    && s[k].entries.contains(adapted(e[i])),
{
    let sets = choose|sets: Seq<Seq<Label>>| #[trigger] streams_by(s, sets, e);
    let key = |x: EntryView| x.labels;
    let image = |x: EntryView| adapted(x);
    assert(sets.no_duplicates()) by {
        assert forall|i: int, j: int|
            0 <= i < sets.len() && 0 <= j < sets.len() && i != j implies sets[i] != sets[j] by {
            <Labels as Key>::order_equal(sets[i], sets[j]);
            <Labels as Key>::order_equal(sets[j], sets[i]);
        }
    }
    assert forall|i: int| 0 <= i < e.len() implies sets.contains((#[trigger] e[i]).labels) by {
        grouping::item_is_member(e, key, image, i);
        assert(sets.contains(e[i].labels) <==> streamed(e, e[i].labels).len() > 0);
    }
    grouping::groups_hold_every_item(e, key, image, sets);
    assert(s.map_values(|x: StreamView| x.entries.len()) =~= grouping::group_sizes(
        e,
        key,
        image,
        sets,
    ));
    assert forall|i: int| 0 <= i < e.len() implies exists|k: int|
        0 <= k < s.len() && (#[trigger] s[k]).labels == label_string((#[trigger] e[i]).labels)
            && s[k].entries.contains(adapted(e[i])) by {
        grouping::item_is_member(e, key, image, i);
        let k = choose|k: int| 0 <= k < sets.len() && sets[k] == e[i].labels;
        assert(s[k].labels == label_string(e[i].labels));
        assert(s[k].entries == streamed(e, e[i].labels));
    }
}

/// A body has words for a request that is over a size limit, in any letter case.
pub open spec fn speaks_of_size(body: Seq<char>) -> bool {
    let b = text::lowered(body);
    ||| text::holds(b, "larger than max"@)
    ||| text::holds(b, "too large"@)
    ||| text::holds(b, "too big"@)
    ||| text::holds(b, "exceeds the maximum"@)
}

proof fn white_space_hides_no_words(body: Seq<char>, words: Seq<char>)
    requires
        words.len() > 0,
        !text::is_white(words[0]),
        !text::is_white(words.last()),
    ensures
        text::holds(text::lowered(text::trimmed(body)), words) <==> text::holds(
            text::lowered(body),
            words,
        ),
{
    let (a, b) = text::trimming_takes_white_space(body);
    let t = text::trimmed(body);
    let whole = text::lowered(body);
    let part = text::lowered(t);
    assert(part =~= whole.subrange(a, b));
    if text::holds(part, words) {
        let at = choose|at: int| text::stands_at(part, words, at);
        assert(whole.subrange(a + at, a + at + words.len()) =~= words) by {
            assert(part.subrange(at, at + words.len()) =~= whole.subrange(
                a + at,
                a + at + words.len(),
            ));
        }
        assert(text::stands_at(whole, words, a + at));
    }
    if text::holds(whole, words) {
        let at = choose|at: int| text::stands_at(whole, words, at);
        let n = words.len() as int;
        assert(whole.subrange(at, at + n)[0] == whole[at]);
        assert(whole.subrange(at, at + n)[n - 1] == whole[at + n - 1]);
        assert(whole[at] == text::lower_char(body[at]));
        assert(whole[at + n - 1] == text::lower_char(body[at + n - 1]));
        assert(!text::is_white(body[at]));
        assert(!text::is_white(body[at + n - 1]));
        assert(a <= at && at + n <= b);
        assert(part.subrange(at - a, at - a + n) =~= whole.subrange(at, at + n));
        assert(text::stands_at(part, words, at - a));
    }
}

proof fn size_words_are_words()
    ensures
        forall|body: Seq<char>| #[trigger]
            speaks_of_size(text::trimmed(body)) <==> speaks_of_size(body),
{
    reveal_strlit("larger than max");
    reveal_strlit("too large");
    reveal_strlit("too big");
    reveal_strlit("exceeds the maximum");
    assert forall|body: Seq<char>| #[trigger]
        speaks_of_size(text::trimmed(body)) <==> speaks_of_size(body) by {
        white_space_hides_no_words(body, "larger than max"@);
        white_space_hides_no_words(body, "too large"@);
        white_space_hides_no_words(body, "too big"@);
        white_space_hides_no_words(body, "exceeds the maximum"@);
    }
}

/// Which answers are over a size limit is a matter of the code 413 and of words for it, and of
/// nothing else: an answer with any other code, and without such words, is not.
pub proof fn size_limit_is_413_or_words(code: u16, body: Seq<char>)
    ensures
        too_large(413, body),
        speaks_of_size(body) ==> too_large(code, body),
        code != 413 && !speaks_of_size(body) ==> !too_large(code, body),
{
}

/// What becomes of a request, by the code of the answer and the words in its body: codes from
/// 200 to 299 are a delivery; the code 413, or words for a size limit under any other code, ask
/// for smaller requests; the code 400 settles the request; and any other answer, such as that
/// of a sink that is down or busy, is a failure after which the same entries are sent again.
pub proof fn code_and_words_decide(response: Response, r: Result<()>)
    requires
        answer(response, r),
    ensures
        200 <= response.code <= 299 ==> shipper::outcome_of(r) == Outcome::Delivered && r is Ok,
        !(200 <= response.code <= 299) && (response.code == 413 || speaks_of_size(response.body@))
            ==> shipper::outcome_of(r) == Outcome::TooLarge,
        response.code == 400 && !speaks_of_size(response.body@) ==> shipper::outcome_of(r)
            == Outcome::Rejected,
        !(200 <= response.code <= 299) && response.code != 413 && response.code != 400
            && !speaks_of_size(response.body@) ==> shipper::outcome_of(r) == Outcome::Failed && (
        r matches Err(Error::Sink(_))),
{
    size_words_are_words();
    assert(speaks_of_size(text::trimmed(response.body@)) <==> speaks_of_size(response.body@));
}

/// Together with the shipper: whatever a sink answers that is no success, no code 400 or 413 and
/// has no words for a size limit, no entry is settled or dropped, and the batch is not
/// acknowledged.
pub proof fn an_outage_loses_nothing(
    response: Response,
    r: Result<()>,
    s: shipper::ShipperView,
    total: nat,
)
    requires
        answer(response, r),
        !(200 <= response.code <= 299),
        response.code != 400,
        response.code != 413,
        !speaks_of_size(response.body@),
        s.valid(),
        s.sent < total,
    ensures
        s.after(shipper::outcome_of(r), total).sent == s.sent,
        s.after(shipper::outcome_of(r), total).chunk == s.chunk,
        !s.acks(shipper::outcome_of(r), total),
{
    code_and_words_decide(response, r);
    shipper::a_failure_settles_nothing(s, total);
}

/// An entry is sent with its own time, line and metadata: its seconds and nanoseconds are the
/// time of the entry.
pub proof fn entries_keep_their_time(e: EntryView)
    ensures
        0 <= adapted(e).nanos < 1_000_000_000,
        0 <= e.timestamp < i64::MAX * 1_000_000_000 ==> adapted(e).seconds * 1_000_000_000
            + adapted(e).nanos == e.timestamp,
        e.timestamp < 0 ==> adapted(e).seconds == 0 && adapted(e).nanos == 0,
        adapted(e).line == e.message,
        adapted(e).metadata == e.metadata,
{
}

/// Escaping goes character by character: what is special has a backslash before it, and what is
/// not stands as it is.
pub proof fn escaping_goes_by_characters(a: Seq<char>, b: Seq<char>, c: char)
    ensures
        escaped(a + b) == escaped(a) + escaped(b),
        c != '\\' && c != '"' && c != '\n' ==> escaped(seq![c]) == seq![c],
        escaped(seq!['\\']) == seq!['\\', '\\'],
        escaped(seq!['"']) == seq!['\\', '"'],
        escaped(seq!['\n']) == seq!['\\', 'n'],
        escaped(Seq::empty()) == Seq::<char>::empty(),
    decreases b.len(),
{
    reveal_with_fuel(escaped, 2);
    assert(seq![c].drop_last() =~= Seq::empty());
    assert(seq!['\\'].drop_last() =~= Seq::empty());
    assert(seq!['"'].drop_last() =~= Seq::empty());
    assert(seq!['\n'].drop_last() =~= Seq::empty());
    assert(escaped(seq![c]) =~= escaped_char(c));
    assert(escaped(seq!['\\']) =~= seq!['\\', '\\']);
    assert(escaped(seq!['"']) =~= seq!['\\', '"']);
    assert(escaped(seq!['\n']) =~= seq!['\\', 'n']);
    if b.len() > 0 {
        escaping_goes_by_characters(a, b.drop_last(), c);
        assert((a + b).drop_last() =~= a + b.drop_last());
        assert(escaped(a + b) =~= escaped(a) + escaped(b));
    } else {
        assert(a + b =~= a);
        assert(escaped(a) + escaped(b) =~= escaped(a));
    }
}

/// A label set reads `{name="value",...}`, with a comma before every label but the first.
pub proof fn label_sets_read_in_order(first: Label, more: Seq<Label>, last: Label)
    ensures
        label_string(Seq::empty()) == "{}"@,
        label_string(seq![first]) == "{"@ + (first.0 + "=\""@ + escaped(first.1) + "\""@) + "}"@,
        label_string((seq![first] + more).push(last)) == "{"@ + (labels_text(seq![first] + more) + ","@
            + (last.0 + "=\""@ + escaped(last.1) + "\""@)) + "}"@,
{
    reveal_strlit("{");
    reveal_strlit("}");
    reveal_strlit("{}");
    assert("{"@ + Seq::<char>::empty() + "}"@ =~= "{}"@);
    let all = (seq![first] + more).push(last);
    assert(all.drop_last() =~= seq![first] + more);
}

/// What is reported of a body that is not too long has every character of it but white space,
/// in order.
pub proof fn folding_keeps_the_words(s: Seq<char>)
    ensures
        folded(s).filter(|c: char| !text::is_white(c)) == s.filter(|c: char| !text::is_white(c)),
        folded(s).len() <= 300 ==> reported(s) == folded(s),
        folded(s).len() > 300 ==> reported(s).len() == 300 && reported(s) == folded(s).take(300),
    decreases s.len(),
{
    reveal(Seq::filter);
    let f = |c: char| !text::is_white(c);
    if s.len() > 0 {
        let before = folded(s.drop_last());
        folding_keeps_the_words(s.drop_last());
        if !text::is_white(s.last()) {
            let spaced = before.push(' ');
            assert(spaced.drop_last() =~= before);
            assert(spaced.push(s.last()).drop_last() =~= spaced);
            assert(before.push(s.last()).drop_last() =~= before);
            assert(spaced.filter(f) == before.filter(f));
        }
    }
}

/// A time that 64 bits of seconds do not hold is sent as the last second that they do, and any
/// other as its own second, the last one among them.
pub proof fn times_out_of_range_are_the_last_second(e: EntryView)
    ensures
        e.timestamp >= 9_223_372_036_854_775_808_000_000_000 ==> adapted(e).seconds
            == 9_223_372_036_854_775_807,
        0 <= e.timestamp < 9_223_372_036_854_775_808_000_000_000 ==> adapted(e).seconds
            * 1_000_000_000 <= e.timestamp < (adapted(e).seconds + 1) * 1_000_000_000,
{
}

/// A stream has the entries of its labels in the order of the batch, each as it is, and the
/// entries of other labels not at all.
pub proof fn streams_keep_the_order_of_the_batch(e: Seq<EntryView>, x: EntryView, set: Seq<Label>)
    ensures
        streamed(Seq::empty(), set).len() == 0,
        x.labels == set ==> streamed(e.push(x), set) == streamed(e, set).push(adapted(x)),
        x.labels != set ==> streamed(e.push(x), set) == streamed(e, set),
{
    assert(e.push(x).drop_last() =~= e);
}

/// There is one stream for each label set, in the order of the sets, with the entries of the set.
pub proof fn streams_are_ordered_by_their_labels(s: Seq<StreamView>, e: Seq<EntryView>)
    requires
        streams_of(s, e),
    ensures
        exists|sets: Seq<Seq<Label>>|
            #![trigger ordered::ascending::<Labels>(sets)]
            ordered::ascending::<Labels>(sets) && sets.len() == s.len() && forall|k: int|
                0 <= k < s.len() ==> (#[trigger] s[k]).labels == label_string(sets[k])
                    && s[k].entries == streamed(e, sets[k]) && s[k].entries.len() > 0,
{
    let sets = choose|sets: Seq<Seq<Label>>| #[trigger] streams_by(s, sets, e);
    assert(ordered::ascending::<Labels>(sets));
    assert forall|k: int| 0 <= k < s.len() implies (#[trigger] s[k]).labels == label_string(sets[k])
        && s[k].entries == streamed(e, sets[k]) && s[k].entries.len() > 0 by {
        assert(sets.contains(sets[k]));
    }
}

/// An answer that is no success is told by its status and its body on one line, whatever else it
/// means.
pub proof fn refusals_tell_status_and_body(response: Response, r: Result<()>)
    requires
        answer(response, r),
    ensures
        ({
            let message = "HTTP "@ + response.status@ + seq![':', ' '] + reported(response.body@);
            match r {
                Ok(_) => 200 <= response.code <= 299,
                Err(Error::SinkPayloadTooLarge(m)) => m@ == message,
                Err(Error::SinkRejected(m)) => m@ == message && response.code == 400,
                Err(Error::Sink(m)) => m@ == message,
                Err(_) => false,
            }
        }),
{
    reveal_strlit(": ");
    assert(": "@ =~= seq![':', ' ']);
}

} // verus!
