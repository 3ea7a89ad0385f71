//! The forwarder: OTLP over HTTP, with a buffer for outages.
//!
//! The loop around the forwarder asks `step` what to do, does that, and tells `settle` how it
//! went.
use std::io::Write;
use vstd::prelude::*;

use crate::config::{Compression, OtlphttpForwarderConfig};
use crate::error::{Error, Result};
use crate::forwarder::buffer::{self, Buffer};
use crate::forwarder::otlp::{self, ExportRequest};
use crate::http::{self, Response};
use crate::labels::{self, Labels};
use crate::signal::{self, Metric, MetricView};
use crate::text;
use crate::time::{self, Deadline, Duration, Instant};

verus! {

/// The path of the API.
pub open spec fn api_path() -> Seq<char> {
    "/v1/metrics"@
}

/// The state of a forwarder.
pub struct OtlphttpForwarder {
    name: String,
    endpoint: String,
    auth_header: Option<String>,
    compression: Compression,
    resource_attributes: Labels,
    buffer: Buffer,
    backoff_initial: Duration,
    backoff_max: Duration,
    backoff: Duration,
    backoff_until: Option<Deadline>,
    shutdown: bool,
}

/// What the state of a forwarder says.
pub struct ForwarderView {
    pub name: Seq<char>,
    pub endpoint: Seq<char>,
    pub auth_header: Option<Seq<char>>,
    pub compression: Compression,
    pub resource_attributes: Map<Seq<char>, Seq<char>>,
    /// The batches that wait to be sent, oldest first.
    pub batches: Seq<Vec<Metric>>,
    pub capacity: nat,
    pub request_size: nat,
    pub initial: nat,
    pub longest: nat,
    /// The pause after the last failure, 0 after a success.
    pub pause: nat,
    /// When the pause ends.
    pub until: Option<nat>,
    pub shutdown: bool,
}

impl View for OtlphttpForwarder {
    type V = ForwarderView;

    closed spec fn view(&self) -> ForwarderView {
        ForwarderView {
            name: self.name@,
            endpoint: self.endpoint@,
            auth_header: match self.auth_header {
                Some(a) => Some(a@),
                None => None,
            },
            compression: self.compression,
            resource_attributes: self.resource_attributes@,
            batches: self.buffer@,
            capacity: self.buffer.capacity(),
            request_size: self.buffer.request_size(),
            initial: self.backoff_initial@,
            longest: self.backoff_max@,
            pause: self.backoff@,
            until: match self.backoff_until {
                Some(d) => Some(d@),
                None => None,
            },
            shutdown: self.shutdown,
        }
    }
}

/// What the loop does next.
pub enum Step {
    /// Send these batches, if there are any, and end whatever comes of it.
    Flush(Vec<Vec<Metric>>),
    /// Wait until something is submitted, or until the forwarder is shut down.
    Idle,
    /// Wait until this point, until something is submitted, or until the forwarder is shut
    /// down.
    Pause(Deadline),
    /// Send these batches.
    Send(Vec<Vec<Metric>>),
}

impl ForwarderView {
    /// How many batches the next request takes.
    pub open spec fn next(self) -> int {
        buffer::fitting(self.batches, 0, self.request_size) as int
    }

    /// The state without the batches of the next request.
    pub open spec fn popped(self) -> ForwarderView {
        ForwarderView { batches: self.batches.skip(self.next()), ..self }
    }

    /// The forwarder is pausing.
    pub open spec fn pausing(self, now: nat) -> bool {
        self.until matches Some(d) && d > now
    }

    /// The state after a batch has been submitted: it waits behind the others, and where
    /// there are too many metrics the oldest batches are gone. An empty batch is passed
    /// over.
    pub open spec fn submitted(self, metrics: Vec<Metric>) -> ForwarderView {
        if metrics@.len() == 0 {
            self
        } else {
            ForwarderView {
                batches: buffer::within(self.batches.push(metrics), self.capacity),
                ..self
            }
        }
    }

    /// The state after a request succeeded.
    pub open spec fn delivered(self) -> ForwarderView {
        ForwarderView { pause: 0, until: None, ..self }
    }

    /// The state after a request failed: its batches are back before the others, and there
    /// is a pause.
    pub open spec fn failed(self, popped: Seq<Vec<Metric>>, now: nat) -> ForwarderView {
        let pause = time::backed_off(self.pause, self.initial, self.longest);
        ForwarderView {
            batches: buffer::within(popped + self.batches, self.capacity),
            pause,
            until: Some(now + pause),
            ..self
        }
    }
}

impl OtlphttpForwarder {
    /// A forwarder with nothing to send.
    pub fn new(name: &str, config: &OtlphttpForwarderConfig, auth_header: Option<String>) -> (f:
        OtlphttpForwarder)
        ensures
            f@ == (ForwarderView {
                name: name@,
                endpoint: http::api_address(config.endpoint@, api_path()),
                auth_header: match auth_header {
                    Some(a) => Some(a@),
                    None => None,
                },
                compression: config.compression,
                resource_attributes: config.resource_attributes@,
                batches: Seq::empty(),
                capacity: config.buffer_max_metrics as nat,
                request_size: config.request_max_metrics as nat,
                initial: config.backoff_initial@,
                longest: config.backoff_max@,
                pause: 0,
                until: None,
                shutdown: false,
            }),
    {
        OtlphttpForwarder {
            name: text::owned(name),
            endpoint: http::with_api_path(config.endpoint.as_str(), "/v1/metrics"),
            auth_header,
            compression: config.compression,
            resource_attributes: labels::copied(&config.resource_attributes),
            buffer: Buffer::new(config.buffer_max_metrics, config.request_max_metrics),
            backoff_initial: config.backoff_initial,
            backoff_max: config.backoff_max,
            backoff: Duration::zero(),
            backoff_until: None,
            shutdown: false,
        }
    }

    /// The name, for reports.
    pub fn name(&self) -> (r: &str)
        ensures
            r@ == self@.name,
    {
        self.name.as_str()
    }

    /// Where requests go.
    pub fn endpoint(&self) -> (r: &str)
        ensures
            r@ == self@.endpoint,
    {
        self.endpoint.as_str()
    }

    /// Puts a batch in the buffer.
    pub fn submit(&mut self, metrics: Vec<Metric>)
        ensures
            final(self)@ == old(self)@.submitted(metrics),
            metrics@.len() > 0 ==> buffer::total(final(self)@.batches) <= final(self)@.capacity,
    {
        self.buffer.submit(metrics);
    }

    /// Asks the forwarder to end after one more attempt.
    pub fn shutdown(&mut self)
        ensures
            final(self)@ == (ForwarderView { shutdown: true, ..old(self)@ }),
    {
        self.shutdown = true;
    }

    /// Says what to do next, and takes what is to be sent out of the buffer.
    pub fn step(&mut self, now: Instant) -> (r: Step)
        ensures
            buffer::total(old(self)@.batches) <= old(self)@.capacity,
            0 <= old(self)@.next() <= old(self)@.batches.len(),
            match r {
                Step::Flush(popped) => old(self)@.shutdown && popped@ == old(self)@.batches.take(
                    old(self)@.next(),
                ) && final(self)@ == old(self)@.popped(),
                Step::Idle => !old(self)@.shutdown && old(self)@.batches.len() == 0 && final(self)@
                    == old(self)@,
                Step::Pause(d) => !old(self)@.shutdown && old(self)@.batches.len() > 0
                    && old(self)@.pausing(now@) && old(self)@.until == Some(d@) && final(self)@
                    == old(self)@,
                Step::Send(popped) => !old(self)@.shutdown && old(self)@.batches.len() > 0
                    && !old(self)@.pausing(now@) && popped@ == old(self)@.batches.take(
                    old(self)@.next(),
                ) && final(self)@ == old(self)@.popped(),
            },
    {
        let ghost before = self.buffer@;
        let mut taken = Buffer::new(0, 0);
        std::mem::swap(&mut taken, &mut self.buffer);
        let empty = taken.is_empty();
        let paused: Option<Deadline> = match self.backoff_until {
            Some(d) => if now.reached(d) {
                None
            } else {
                Some(d)
            },
            None => None,
        };
        let popped: Vec<Vec<Metric>> = if self.shutdown || !empty && paused.is_none() {
            taken.pop_for_send()
        } else {
            Vec::new()
        };
        self.buffer = taken;
        if self.shutdown {
            return Step::Flush(popped);
        }
        if empty {
            return Step::Idle;
        }
        match paused {
            Some(d) => Step::Pause(d),
            None => Step::Send(popped),
        }
    }

    /// Takes the end of a request: the pause before the next one, where it failed.
    pub fn settle(&mut self, popped: Vec<Vec<Metric>>, ok: bool, now: Instant) -> (r: Option<
        Duration,
    >)
        ensures
            final(self)@ == if ok {
                old(self)@.delivered()
            } else {
                old(self)@.failed(popped@, now@)
            },
            match r {
                Some(d) => !ok && d@ == final(self)@.pause,
                None => ok,
            },
    {
        if ok {
            self.backoff = Duration::zero();
            self.backoff_until = None;
            None
        } else {
            self.buffer.requeue(popped);
            let pause = time::next_backoff(self.backoff, self.backoff_initial, self.backoff_max);
            self.backoff = pause;
            self.backoff_until = Some(now.after(pause));
            Some(pause)
        }
    }

    /// The request for some batches.
    pub fn request(&self, popped: &Vec<Vec<Metric>>) -> (r: ExportRequest)
        ensures
            r.resource@ == self@.resource_attributes,
            otlp::grouped(otlp::otlp_views(r.metrics@), flat(popped@)),
    {
        let all = flattened(popped);
        otlp::metrics_to_otlp(&all, &self.resource_attributes)
    }

    /// The body of a request, compressed where that is configured.
    pub fn body(&self, encoded: Vec<u8>) -> (r: Result<(Vec<u8>, bool)>)
        ensures
            encodes(r, encoded@, self@.compression),
    {
        encode_body(encoded, self.compression)
    }

    /// The headers of a request.
    pub fn headers(&self, is_gzip: bool) -> (r: Vec<(&'static str, String)>)
        ensures
            http::header_views(r@) == http::protobuf_headers(
                if is_gzip {
                    Some("gzip"@)
                } else {
                    None
                },
                self@.auth_header,
            ),
    {
        let encoding = if is_gzip {
            Some("gzip")
        } else {
            None
        };
        http::headers(encoding, &self.auth_header)
    }
}

/// The metrics of some batches, one batch after the other.
pub open spec fn flat(b: Seq<Vec<Metric>>) -> Seq<MetricView>
    decreases b.len(),
{
    if b.len() == 0 {
        Seq::empty()
    } else {
        flat(b.drop_last()) + signal::metric_views(b.last()@)
    }
}

fn flattened(b: &Vec<Vec<Metric>>) -> (r: Vec<Metric>)
    ensures
        signal::metric_views(r@) == flat(b@),
{
    let mut out: Vec<Metric> = Vec::new();
    let mut i: usize = 0;
    assert(signal::metric_views(out@) =~= flat(b@.take(0)));
    while i < b.len()
        invariant
            i <= b@.len(),
            signal::metric_views(out@) == flat(b@.take(i as int)),
        decreases b@.len() - i,
    {
        assert(b@.take(i + 1).drop_last() =~= b@.take(i as int));
        assert(b@.take(i + 1).last() == b@[i as int]);
        let ghost before = signal::metric_views(out@);
        let ghost batch = signal::metric_views(b@[i as int]@);
        let mut j: usize = 0;
        assert(before + batch.take(0) =~= before);
        while j < b[i].len()
            invariant
                i < b@.len(),
                j <= b@[i as int]@.len(),
                batch == signal::metric_views(b@[i as int]@),
                signal::metric_views(out@) == before + batch.take(j as int),
            decreases b@[i as int]@.len() - j,
        {
            let ghost had = signal::metric_views(out@);
            let m = b[i][j].clone();
            out.push(m);
            assert(signal::metric_views(out@) =~= had.push(m@));
            assert(batch.take(j + 1) =~= batch.take(j as int).push(batch[j as int]));
            assert(signal::metric_views(out@) =~= before + batch.take(j + 1));
            j = j + 1;
        }
        assert(batch.take(j as int) =~= batch);
        i = i + 1;
    }
    assert(b@.take(i as int) =~= b@);
    out
}

// Bodies

/// Where compression failed, and why.
pub enum GzipFault {
    Write(String),
    Finish(String),
}

/// What a fault says: whether all bytes had been taken, and the reason.
pub open spec fn fault_view(f: GzipFault) -> (bool, Seq<char>) {
    match f {
        GzipFault::Write(e) => (false, e@),
        GzipFault::Finish(e) => (true, e@),
    }
}

/// What compressing some bytes gives: the compressed bytes, or whether all bytes had been
/// taken when it failed, and the reason.
pub uninterp spec fn gzipped(bytes: Seq<u8>) -> std::result::Result<Seq<u8>, (bool, Seq<char>)>;

/// Compresses bytes in memory at the default level (`flate2::write::GzEncoder`: `new`,
/// `write_all` and `finish`). The result depends on the bytes alone, as the header carries
/// neither a time nor the system; what the compressed bytes are, and that compression into
/// memory succeeds, is left to the crate.
#[verifier::external_body]
fn gzip(bytes: &Vec<u8>) -> (r: std::result::Result<Vec<u8>, GzipFault>)
    ensures
        match r {
            Ok(v) => gzipped(bytes@) == Ok::<Seq<u8>, (bool, Seq<char>)>(v@),
            Err(f) => gzipped(bytes@) == Err::<Seq<u8>, (bool, Seq<char>)>(fault_view(f)),
        },
{
    let level = flate2::Compression::default();
    let mut encoder = flate2::write::GzEncoder::new(Vec::new(), level);
    match encoder.write_all(bytes) {
        Ok(()) => encoder.finish().map_err(|e| GzipFault::Finish(e.to_string())),
        Err(e) => Err(GzipFault::Write(e.to_string())),
    }
}

/// A compressed body as it is sent, given what compressing it came to.
pub open spec fn sends_compressed(
    r: Result<(Vec<u8>, bool)>,
    compressed: std::result::Result<Seq<u8>, (bool, Seq<char>)>,
) -> bool {
    match compressed {
        Ok(c) => r matches Ok((body, gzip)) && body@ == c && gzip,
        Err((finishing, e)) => r matches Err(Error::Forwarder(m)) && m@ == if finishing {
            "gzip finalize failed: "@ + e
        } else {
            "gzip compression failed: "@ + e
        },
    }
}

/// A body as it is sent, with whether it is compressed.
pub open spec fn encodes(
    r: Result<(Vec<u8>, bool)>,
    encoded: Seq<u8>,
    compression: Compression,
) -> bool {
    match compression {
        Compression::Plain => r matches Ok((body, gzip)) && body@ == encoded && !gzip,
        Compression::Gzip => sends_compressed(r, gzipped(encoded)),
    }
}

/// The body of a compressed request, given what compressing it came to.
pub fn compressed_body(compressed: std::result::Result<Vec<u8>, GzipFault>) -> (r: Result<
    (Vec<u8>, bool),
>)
    ensures
        sends_compressed(
            r,
            match compressed {
                Ok(v) => Ok(v@),
                Err(f) => Err(fault_view(f)),
            },
        ),
{
    match compressed {
        Ok(v) => Ok((v, true)),
        Err(GzipFault::Write(e)) => Err(
            Error::Forwarder(text::cat2("gzip compression failed: ", e.as_str())),
        ),
        Err(GzipFault::Finish(e)) => Err(
            Error::Forwarder(text::cat2("gzip finalize failed: ", e.as_str())),
        ),
    }
}

/// The body of a request, compressed where that is asked for, and whether it is.
pub fn encode_body(encoded: Vec<u8>, compression: Compression) -> (r: Result<(Vec<u8>, bool)>)
    ensures
        encodes(r, encoded@, compression),
{
    match compression {
        Compression::Gzip => compressed_body(gzip(&encoded)),
        Compression::Plain => Ok((encoded, false)),
    }
}

// Answers

/// Why a request failed, if it did.
pub open spec fn refusal(response: Response) -> Option<Seq<char>> {
    if response.success() {
        None
    } else {
        Some("HTTP "@ + response.status@ + ": "@ + response.body@)
    }
}

/// Tells whether a request succeeded, and why it did not.
pub fn check_response(response: &Response) -> (r: std::result::Result<(), String>)
    ensures
        match r {
            Ok(_) => refusal(*response) is None,
            Err(e) => refusal(*response) == Some(e@),
        },
{
    if response.is_success() {
        Ok(())
    } else {
        Err(text::cat4("HTTP ", response.status.as_str(), ": ", response.body.as_str()))
    }
}

// Laws

/// A request that fails loses nothing: its batches are where they were, and the forwarder
/// pauses, no longer than the longest pause.
pub proof fn failure_loses_nothing(f: ForwarderView, now: nat)
    requires
        buffer::total(f.batches) <= f.capacity,
        0 <= f.next() <= f.batches.len(),
        f.initial <= f.longest,
        f.pause <= f.longest,
    ensures
        f.popped().failed(f.batches.take(f.next()), now).batches == f.batches,
        f.popped().failed(f.batches.take(f.next()), now).pause <= f.longest,
        f.popped().failed(f.batches.take(f.next()), now).until == Some(
            now + f.popped().failed(f.batches.take(f.next()), now).pause,
        ),
{
    buffer::requeue_undoes_pop(f.batches, f.next(), f.capacity);
    time::backoff_is_bounded(f.pause, f.initial, f.longest);
}

/// A success ends the pause: what is left in the buffer is sent at once.
pub proof fn success_ends_the_pause(f: ForwarderView, now: nat)
    ensures
        !f.delivered().pausing(now),
        f.delivered().batches == f.batches,
{
}

/// A request succeeded exactly where the code of the answer is one from 200 to 299; any other
/// answer is a failure, after which the batches are sent again.
pub proof fn only_codes_of_success_are_success(response: Response)
    ensures
        refusal(response) is None <==> 200 <= response.code <= 299,
        !(200 <= response.code <= 299) ==> refusal(response) == Some(
            "HTTP "@ + response.status@ + ": "@ + response.body@,
        ),
{
}

/// A failure brings the batches back to the front and a pause that doubles up to the longest
/// one; nothing is sent before it is over, and a batch that is submitted meanwhile waits at the
/// back.
pub proof fn a_failure_is_followed_by_a_pause(
    f: ForwarderView,
    popped: Seq<Vec<Metric>>,
    now: nat,
    later: nat,
    metrics: Vec<Metric>,
)
    requires
        buffer::total(popped + f.batches) <= f.capacity,
        buffer::total((popped + f.batches).push(metrics)) <= f.capacity,
        metrics@.len() > 0,
    ensures
        f.failed(popped, now).batches == popped + f.batches,
        f.failed(popped, now).pause == if f.pause == 0 {
            f.initial
        } else if 2 * f.pause <= f.longest {
            2 * f.pause
        } else {
            f.longest
        },
        f.failed(popped, now).pausing(later) <==> later < now + f.failed(popped, now).pause,
        f.failed(popped, now).submitted(metrics).batches == (popped + f.batches).push(metrics),
        f.failed(popped, now).submitted(metrics).pausing(later) == f.failed(popped, now).pausing(
            later,
        ),
{
}

/// A success forgets the pause, and leaves what waits as it is.
pub proof fn a_success_starts_over(f: ForwarderView, popped: Seq<Vec<Metric>>, now: nat)
    requires
        buffer::total(popped + f.batches) <= f.capacity,
    ensures
        f.delivered().pause == 0,
        f.delivered().until is None,
        f.delivered().batches == f.batches,
        f.delivered().failed(popped, now).pause == f.initial,
        f.delivered().failed(popped, now).until == Some(now + f.initial),
{
}

/// The metrics of some batches are those of each, one batch after the other.
pub proof fn batches_are_sent_in_order(b: Seq<Vec<Metric>>, m: Vec<Metric>)
    ensures
        flat(Seq::empty()) == Seq::<MetricView>::empty(),
        flat(b.push(m)) == flat(b) + signal::metric_views(m@),
        signal::metric_views(m@).len() == m@.len(),
        forall|i: int| 0 <= i < m@.len() ==> #[trigger] signal::metric_views(m@)[i] == m@[i]@,
{
    assert(b.push(m).drop_last() =~= b);
}

/// A body is sent as it is where no compression is configured, and marked as compressed exactly
/// where it is.
pub proof fn bodies_are_marked(r: Result<(Vec<u8>, bool)>, encoded: Seq<u8>)
    ensures
        encodes(r, encoded, Compression::Plain) ==> (r matches Ok((body, gzip)) && body@ == encoded
            && !gzip),
        encodes(r, encoded, Compression::Gzip) ==> (r matches Ok((body, gzip)) ==> gzip && gzipped(
            encoded,
        ) == Ok::<Seq<u8>, (bool, Seq<char>)>(body@)),
{
}

/// Metrics are posted to the path of the metrics, and a body that cannot be compressed is a failure
/// that says at which step.
pub proof fn failures_of_compression_are_told(r: Result<(Vec<u8>, bool)>, e: Seq<char>)
    ensures
        api_path() == "/v1/metrics"@,
        sends_compressed(r, Err((false, e))) ==> (r matches Err(Error::Forwarder(m)) && m@
            == "gzip compression failed: "@ + e),
        sends_compressed(r, Err((true, e))) ==> (r matches Err(Error::Forwarder(m)) && m@
            == "gzip finalize failed: "@ + e),
{
}

} // verus!
