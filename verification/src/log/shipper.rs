//! The shipper: what it sends next, and what each answer of the sink means.
//!
//! The shipper drives one source and one sink. The loop around it peeks a batch, asks
//! `plan` what to do with it, does that, and tells `settle` how it went.
use vstd::prelude::*;

use crate::error::{Error, Result};
use crate::log::source::{self, LogEntry};
use crate::text;
use crate::time::{self, Duration};

verus! {

/// How the sink answered a request.
#[derive(Debug, Clone, Copy, PartialEq, Eq, Structural)]
pub enum Outcome {
    /// The entries were taken.
    Delivered,
    /// The request is over a size limit: the same request can never succeed.
    TooLarge,
    /// Entries of the request are invalid; the sink took the valid ones.
    Rejected,
    /// Anything else: the same request may succeed later.
    Failed,
}

/// What an answer of a sink means.
pub open spec fn outcome_of(r: Result<()>) -> Outcome {
    match r {
        Ok(_) => Outcome::Delivered,
        Err(Error::SinkPayloadTooLarge(_)) => Outcome::TooLarge,
        Err(Error::SinkRejected(_)) => Outcome::Rejected,
        Err(_) => Outcome::Failed,
    }
}

/// Tells what an answer of a sink means.
pub fn outcome(r: &Result<()>) -> (o: Outcome)
    ensures
        o == outcome_of(*r),
{
    match r {
        Ok(_) => Outcome::Delivered,
        Err(Error::SinkPayloadTooLarge(_)) => Outcome::TooLarge,
        Err(Error::SinkRejected(_)) => Outcome::Rejected,
        Err(_) => Outcome::Failed,
    }
}

/// What to do with the batch that is in flight.
#[derive(Debug, Clone, Copy, PartialEq, Eq, Structural)]
pub enum Step {
    /// Every entry is settled (or there is none): acknowledge the batch.
    Ack,
    /// Send `count` entries, starting with the one at `from`.
    Send { from: usize, count: usize },
}

/// What became of a request.
#[derive(Debug, Clone, Copy, PartialEq, Eq, Structural)]
pub enum Verdict {
    /// The entries were delivered.
    Shipped,
    /// The entry at this position was refused on its own, and is dropped.
    Dropped { entry: usize },
    /// The request was too large; the next one has at most this many entries.
    Split { chunk: usize },
    /// The sink refused entries as invalid; they are not sent again.
    Refused,
    /// The request failed; it is sent again after this pause.
    Retry { pause: Duration },
}

/// What became of a request, and whether the batch is to be acknowledged now.
#[derive(Debug, Clone, Copy, PartialEq, Eq, Structural)]
pub struct Settled {
    pub verdict: Verdict,
    pub ack: bool,
}

/// The state of a shipper.
///
/// `sent` entries at the front of the batch in flight are settled but not yet
/// acknowledged; `chunk` is the most entries that go into one request. Both are reset
/// when the batch is acknowledged. Between two looks at it, a batch in flight only ever
/// grows at its back, so that the count of settled entries stays right.
pub struct Shipper {
    backoff_initial: Duration,
    backoff_max: Duration,
    backoff: Duration,
    sent: usize,
    chunk: usize,
}

/// What a shipper's state says.
pub struct ShipperView {
    pub initial: nat,
    pub longest: nat,
    pub pause: nat,
    pub sent: nat,
    pub chunk: nat,
}

impl View for Shipper {
    type V = ShipperView;

    closed spec fn view(&self) -> ShipperView {
        ShipperView {
            initial: self.backoff_initial@,
            longest: self.backoff_max@,
            pause: self.backoff@,
            sent: self.sent as nat,
            chunk: self.chunk as nat,
        }
    }
}

impl ShipperView {
    /// The state at the start of a batch: nothing settled, requests of any size.
    pub open spec fn fresh(self) -> ShipperView {
        ShipperView { sent: 0, chunk: usize::MAX as nat, ..self }
    }

    /// A chunk holds at least one entry.
    pub open spec fn valid(self) -> bool {
        0 < self.chunk <= usize::MAX && self.sent <= usize::MAX
    }

    /// How many entries the next request has.
    pub open spec fn count(self, total: nat) -> nat {
        let pending = (total - self.sent) as nat;
        if pending <= self.chunk {
            pending
        } else {
            self.chunk
        }
    }

    /// The state with `n` more entries settled, and the batch acknowledged where these
    /// were the last.
    pub open spec fn advanced(self, n: nat, total: nat) -> ShipperView {
        if self.sent + n >= total {
            self.fresh()
        } else {
            ShipperView { sent: self.sent + n, ..self }
        }
    }

    /// The state without a pause.
    pub open spec fn rested(self) -> ShipperView {
        ShipperView { pause: 0, ..self }
    }

    /// The state after an answer to the request that was planned for a batch of `total`
    /// entries.
    pub open spec fn after(self, o: Outcome, total: nat) -> ShipperView {
        let n = self.count(total);
        match o {
            Outcome::Delivered | Outcome::Rejected => self.rested().advanced(n, total),
            Outcome::TooLarge => if n == 1 {
                self.advanced(1, total)
            } else {
                ShipperView { chunk: n / 2, ..self }
            },
            Outcome::Failed => ShipperView {
                pause: time::backed_off(self.pause, self.initial, self.longest),
                ..self
            },
        }
    }

    /// Whether the batch is acknowledged after an answer: exactly when that answer
    /// settles its last entry.
    pub open spec fn acks(self, o: Outcome, total: nat) -> bool {
        let n = self.count(total);
        match o {
            Outcome::Delivered | Outcome::Rejected => self.sent + n >= total,
            Outcome::TooLarge => n == 1 && self.sent + 1 >= total,
            Outcome::Failed => false,
        }
    }
}

impl Shipper {
    #[verifier::type_invariant]
    spec fn chunk_positive(self) -> bool {
        self.chunk > 0
    }

    /// A shipper with nothing in flight.
    pub fn new(backoff_initial: Duration, backoff_max: Duration) -> (s: Shipper)
        ensures
            s@ == (ShipperView {
                initial: backoff_initial@,
                longest: backoff_max@,
                pause: 0,
                sent: 0,
                chunk: usize::MAX as nat,
            }),
            s@.valid(),
    {
        Shipper {
            backoff_initial,
            backoff_max,
            backoff: Duration::zero(),
            sent: 0,
            chunk: usize::MAX,
        }
    }

    /// Says what to do with the batch in flight, which has `total` entries.
    pub fn plan(&mut self, total: usize) -> (step: Step)
        ensures
            old(self)@.valid(),
            final(self)@.valid(),
            old(self)@.sent >= total ==> step == Step::Ack && final(self)@ == old(self)@.fresh(),
            old(self)@.sent < total ==> {
                &&& step == (Step::Send {
                    from: old(self)@.sent as usize,
                    count: old(self)@.count(total as nat) as usize,
                })
                &&& 0 < old(self)@.count(total as nat)
                &&& old(self)@.sent + old(self)@.count(total as nat) <= total
                &&& final(self)@ == old(self)@
            },
    {
        proof {
            use_type_invariant(&*self);
        }
        if self.sent >= total {
            self.sent = 0;
            self.chunk = usize::MAX;
            Step::Ack
        } else {
            let pending: usize = total - self.sent;
            let count: usize = if pending <= self.chunk {
                pending
            } else {
                self.chunk
            };
            Step::Send { from: self.sent, count }
        }
    }

    /// Takes the answer to the request that `plan` asked for.
    pub fn settle(&mut self, o: Outcome, total: usize) -> (r: Settled)
        requires
            old(self)@.sent < total,
        ensures
            old(self)@.valid(),
            final(self)@.valid(),
            final(self)@ == old(self)@.after(o, total as nat),
            r.ack == old(self)@.acks(o, total as nat),
            match o {
                Outcome::Delivered => r.verdict == Verdict::Shipped,
                Outcome::Rejected => r.verdict == Verdict::Refused,
                Outcome::TooLarge => if old(self)@.count(total as nat) == 1 {
                    r.verdict == (Verdict::Dropped { entry: old(self)@.sent as usize })
                } else {
                    r.verdict == (Verdict::Split { chunk: final(self)@.chunk as usize })
                },
                Outcome::Failed => r.verdict matches Verdict::Retry { pause } && pause@
                    == final(self)@.pause,
            },
    {
        proof {
            use_type_invariant(&*self);
        }
        let pending: usize = total - self.sent;
        let n: usize = if pending <= self.chunk {
            pending
        } else {
            self.chunk
        };
        match o {
            Outcome::Delivered => {
                self.backoff = Duration::zero();
                let ack = self.advance(n, total);
                Settled { verdict: Verdict::Shipped, ack }
            },
            Outcome::Rejected => {
                self.backoff = Duration::zero();
                let ack = self.advance(n, total);
                Settled { verdict: Verdict::Refused, ack }
            },
            Outcome::TooLarge => {
                if n == 1 {
                    let entry: usize = self.sent;
                    let ack = self.advance(1, total);
                    Settled { verdict: Verdict::Dropped { entry }, ack }
                } else {
                    self.chunk = n / 2;
                    Settled { verdict: Verdict::Split { chunk: self.chunk }, ack: false }
                }
            },
            Outcome::Failed => {
                let pause = time::next_backoff(
                    self.backoff,
                    self.backoff_initial,
                    self.backoff_max,
                );
                self.backoff = pause;
                Settled { verdict: Verdict::Retry { pause }, ack: false }
            },
        }
    }

    /// Counts entries as settled, and starts over where they were the last.
    fn advance(&mut self, n: usize, total: usize) -> (ack: bool)
        requires
            old(self)@.sent < total,
            n <= total - old(self)@.sent,
        ensures
            final(self)@ == old(self)@.advanced(n as nat, total as nat),
            ack == (old(self)@.sent + n >= total),
    {
        proof {
            use_type_invariant(&*self);
        }
        self.sent = self.sent + n;
        if self.sent >= total {
            self.sent = 0;
            self.chunk = usize::MAX;
            true
        } else {
            false
        }
    }
}

// What a whole batch goes through

/// One request for a batch, and its answer.
pub struct Request {
    pub from: nat,
    pub count: nat,
    pub outcome: Outcome,
}

impl Request {
    /// The request settles its entries: they were taken, or refused for good.
    pub open spec fn settles(self) -> bool {
        match self.outcome {
            Outcome::Delivered | Outcome::Rejected => true,
            Outcome::TooLarge => self.count == 1,
            Outcome::Failed => false,
        }
    }
}

/// The requests that the shipper makes for the rest of a batch of `total` entries, where
/// the sink answers a request for `count` entries from `from` on with `sink(from, count)`.
/// The list ends with the acknowledgement of the batch, or with a failure.
pub open spec fn requests(
    s: ShipperView,
    total: nat,
    sink: spec_fn(nat, nat) -> Outcome,
) -> Seq<Request>
    decreases total - s.sent, s.count(total),
{
    let n = s.count(total);
    if s.sent >= total || !s.valid() {
        Seq::empty()
    } else {
        let o = sink(s.sent, n);
        let here = Request { from: s.sent, count: n, outcome: o };
        if o == Outcome::Failed || s.acks(o, total) {
            seq![here]
        } else {
            seq![here] + requests(s.after(o, total), total, sink)
        }
    }
}

/// The requests settle every entry from `from` up to `total`, each once and in order,
/// and a request that settles nothing is followed by a smaller one from the same place.
pub open spec fn settle_all(r: Seq<Request>, from: nat, total: nat) -> bool
    decreases r.len(),
{
    if r.len() == 0 {
        from == total
    } else {
        &&& r[0].from == from
        &&& 0 < r[0].count
        &&& from + r[0].count <= total
        &&& if r[0].settles() {
            settle_all(r.drop_first(), from + r[0].count, total)
        } else {
            &&& r.len() > 1
            &&& r[1].count < r[0].count
            &&& settle_all(r.drop_first(), from, total)
        }
    }
}

/// A batch that the sink does not fail on is settled to its last entry: whatever it
/// refuses as too large is sent again in smaller requests, never again as it was, every
/// entry is settled once and in order, and only an entry that was refused on its own, or
/// in a request that was refused as invalid, is not delivered.
pub proof fn batch_is_settled(s: ShipperView, total: nat, sink: spec_fn(nat, nat) -> Outcome)
    requires
        s.valid(),
        s.sent < total <= usize::MAX,
        forall|from: nat, count: nat| #[trigger] sink(from, count) != Outcome::Failed,
    ensures
        settle_all(requests(s, total, sink), s.sent, total),
    decreases total - s.sent, s.count(total),
{
    let n = s.count(total);
    let o = sink(s.sent, n);
    let here = Request { from: s.sent, count: n, outcome: o };
    let r = requests(s, total, sink);
    reveal_with_fuel(settle_all, 2);
    if s.acks(o, total) {
        assert(r =~= seq![here]);
        assert(r.drop_first() =~= Seq::empty());
    } else {
        let next = s.after(o, total);
        batch_is_settled(next, total, sink);
        let rest = requests(next, total, sink);
        assert(r =~= seq![here] + rest);
        assert(r.drop_first() =~= rest);
        assert(rest.len() > 0);
        assert(r[1] == rest[0]);
    }
}

/// The state after some answers, each with the length that the batch had when the request was
/// made: between two requests the batch may have been topped up.
pub open spec fn ran(s: ShipperView, t: Seq<(nat, Outcome)>) -> ShipperView
    decreases t.len(),
{
    if t.len() == 0 {
        s
    } else {
        ran(s, t.drop_last()).after(t.last().1, t.last().0)
    }
}

/// A batch is still in flight after some answers: it never became shorter, at each request
/// something of it was unsettled, and no answer acknowledged it.
pub open spec fn in_flight(s: ShipperView, t: Seq<(nat, Outcome)>) -> bool
    decreases t.len(),
{
    if t.len() == 0 {
        true
    } else {
        let before = t.drop_last();
        &&& in_flight(s, before)
        &&& before.len() > 0 ==> before.last().0 <= t.last().0
        &&& ran(s, before).sent < t.last().0
        &&& !ran(s, before).acks(t.last().1, t.last().0)
    }
}

/// The positions of the entries that an answer settles.
pub open spec fn settled_by(s: ShipperView, o: Outcome, total: nat) -> Seq<nat> {
    let r = Request { from: s.sent, count: s.count(total), outcome: o };
    if r.settles() {
        Seq::new(r.count, |i: int| (r.from + i) as nat)
    } else {
        Seq::empty()
    }
}

/// The positions of the entries that some answers settle, in the order in which they do.
pub open spec fn covered(s: ShipperView, t: Seq<(nat, Outcome)>) -> Seq<nat>
    decreases t.len(),
{
    if t.len() == 0 {
        Seq::empty()
    } else {
        covered(s, t.drop_last()) + settled_by(ran(s, t.drop_last()), t.last().1, t.last().0)
    }
}

/// The positions from the front of a batch up to some length.
pub open spec fn first_positions(n: nat) -> Seq<nat> {
    Seq::new(n, |i: int| i as nat)
}

/// Whatever the sink answers, failures included, and however the batch is topped up meanwhile:
/// the entries that are settled are those at the front of the batch up to the count of the
/// shipper, each settled once and in order. None is skipped, and none is settled twice.
pub proof fn settled_entries_are_the_front(s: ShipperView, t: Seq<(nat, Outcome)>)
    requires
        s.valid(),
        s.sent == 0,
        in_flight(s, t),
    ensures
        covered(s, t) == first_positions(ran(s, t).sent),
    decreases t.len(),
{
    if t.len() > 0 {
        let before = t.drop_last();
        settled_entries_are_the_front(s, before);
        assert(covered(s, t) =~= first_positions(ran(s, t).sent));
    } else {
        assert(covered(s, t) =~= first_positions(0));
    }
}

/// When an answer acknowledges a batch, every entry of it has been settled, each once and in
/// order, and the next batch starts at its front, whatever was answered before.
pub proof fn acknowledged_batch_is_settled(
    s: ShipperView,
    t: Seq<(nat, Outcome)>,
    total: nat,
    o: Outcome,
)
    requires
        s.valid(),
        s.sent == 0,
        in_flight(s, t),
        t.len() > 0 ==> t.last().0 <= total,
        ran(s, t).sent < total,
        ran(s, t).acks(o, total),
    ensures
        covered(s, t.push((total, o))) == first_positions(total),
        ran(s, t.push((total, o))).sent == 0,
{
    let whole = t.push((total, o));
    settled_entries_are_the_front(s, t);
    assert(whole.drop_last() =~= t);
    assert(covered(s, whole) =~= first_positions(total));
}

/// The pause never exceeds the longest one, and an answer that settles entries ends it.
pub proof fn shipper_pause_is_bounded(s: ShipperView, o: Outcome, total: nat)
    requires
        s.initial <= s.longest,
        s.pause <= s.longest,
    ensures
        s.after(o, total).pause <= s.longest,
        o == Outcome::Delivered || o == Outcome::Rejected ==> s.after(o, total).pause == 0,
{
    time::backoff_is_bounded(s.pause, s.initial, s.longest);
}

/// The batch is acknowledged exactly when an answer leaves nothing of it unsettled, and
/// the shipper then starts the next batch afresh.
pub proof fn ack_means_all_settled(s: ShipperView, o: Outcome, total: nat)
    requires
        s.valid(),
        s.sent < total,
    ensures
        s.acks(o, total) <==> (Request { from: s.sent, count: s.count(total), outcome: o }).settles()
            && s.sent + s.count(total) == total,
        s.acks(o, total) ==> s.after(o, total).sent == 0 && s.after(o, total).chunk == usize::MAX,
{
}

// Reports

proof fn entries_size_grows(entries: Seq<source::EntryView>, n: int)
    requires
        0 <= n <= entries.len(),
    ensures
        source::entries_size(entries.take(n)) <= source::entries_size(entries),
    decreases entries.len(),
{
    if n == entries.len() {
        assert(entries.take(n) =~= entries);
    } else {
        entries_size_grows(entries.drop_last(), n);
        assert(entries.drop_last().take(n) =~= entries.take(n));
    }
}

/// The approximate size of some entries.
pub fn approx_size(entries: &[LogEntry]) -> (n: usize)
    requires
        source::entries_size(source::entry_views(entries@)) <= usize::MAX,
    ensures
        n == source::entries_size(source::entry_views(entries@)),
{
    let ghost all = source::entry_views(entries@);
    let mut sum: usize = 0;
    let mut i: usize = 0;
    while i < entries.len()
        invariant
            all == source::entry_views(entries@),
            i <= entries@.len(),
            sum == source::entries_size(all.take(i as int)),
            source::entries_size(all) <= usize::MAX,
        decreases entries@.len() - i,
    {
        proof {
            entries_size_grows(all, i + 1);
            assert(all.take(i + 1).drop_last() =~= all.take(i as int));
            assert(all.take(i + 1).last() == entries@[i as int]@);
        }
        let size: usize = entries[i].approx_size();
        sum = sum + size;
        i = i + 1;
    }
    assert(all.take(i as int) =~= all);
    sum
}

/// The first `max` characters of a text, with an ellipsis if anything was cut.
pub open spec fn shortened(s: Seq<char>, max: nat) -> Seq<char> {
    if s.len() > max {
        s.take(max as int).push('\u{2026}')
    } else {
        s
    }
}

/// Cuts a text to `max` characters, with an ellipsis if anything was cut.
pub fn truncate(s: &str, max: usize) -> (r: String)
    ensures
        r@ == shortened(s@, max as nat),
{
    let v = text::chars_of(s);
    if v.len() > max {
        let mut r = text::text_of(&v, 0, max);
        r.push('\u{2026}');
        assert(r@ =~= shortened(s@, max as nat));
        r
    } else {
        text::owned(s)
    }
}

/// Only a request over a size limit is split, and only invalid entries are given up: every
/// other error is a failure, after which the same request is sent again.
pub proof fn other_errors_are_retried(r: Result<()>)
    ensures
        outcome_of(r) == Outcome::Delivered <==> r is Ok,
        outcome_of(r) == Outcome::TooLarge <==> (r matches Err(e) && e is SinkPayloadTooLarge),
        outcome_of(r) == Outcome::Rejected <==> (r matches Err(e) && e is SinkRejected),
        outcome_of(r) == Outcome::Failed <==> (r matches Err(e) && !(e is SinkPayloadTooLarge)
            && !(e is SinkRejected)),
{
}

/// A failure changes nothing but the pause: no entry is settled or dropped, the batch is not
/// acknowledged, and the next request is the same one again.
pub proof fn a_failure_settles_nothing(s: ShipperView, total: nat)
    requires
        s.valid(),
        s.sent < total,
    ensures
        s.after(Outcome::Failed, total).sent == s.sent,
        s.after(Outcome::Failed, total).count(total) == s.count(total),
        s.after(Outcome::Failed, total).chunk == s.chunk,
        s.after(Outcome::Failed, total).pause == if s.pause == 0 {
            s.initial
        } else if 2 * s.pause <= s.longest {
            2 * s.pause
        } else {
            s.longest
        },
        !s.acks(Outcome::Failed, total),
        settled_by(s, Outcome::Failed, total) == Seq::<nat>::empty(),
{
}

/// A request takes the entries behind those that are settled: all of them, or as many as a
/// request may have.
pub proof fn a_request_takes_what_is_left(s: ShipperView, total: nat)
    requires
        s.valid(),
        s.sent < total,
    ensures
        0 < s.count(total) <= s.chunk,
        s.sent + s.count(total) <= total,
        s.count(total) == s.chunk || s.sent + s.count(total) == total,
        s.chunk == usize::MAX && total <= usize::MAX ==> s.sent + s.count(total) == total,
{
}

/// A request that is over a size limit is halved until it goes through, and dropped only where
/// it is a single entry.
pub proof fn an_oversized_request_is_halved(s: ShipperView, total: nat)
    requires
        s.valid(),
        s.sent < total,
    ensures
        s.count(total) > 1 ==> {
            let t = s.after(Outcome::TooLarge, total);
            &&& t.sent == s.sent
            &&& t.count(total) == s.count(total) / 2
            &&& t.pause == s.pause
            &&& !s.acks(Outcome::TooLarge, total)
            &&& settled_by(s, Outcome::TooLarge, total) == Seq::<nat>::empty()
        },
        s.count(total) == 1 ==> settled_by(s, Outcome::TooLarge, total) == seq![s.sent],
{
    if s.count(total) == 1 {
        assert(settled_by(s, Outcome::TooLarge, total) =~= seq![s.sent]);
    }
}

/// What the sink took, or refused as invalid, is settled, all of it, and the pause is over.
pub proof fn an_answered_request_is_settled(s: ShipperView, o: Outcome, total: nat)
    requires
        s.valid(),
        s.sent < total,
        o == Outcome::Delivered || o == Outcome::Rejected,
    ensures
        settled_by(s, o, total).len() == s.count(total),
        forall|i: int|
            0 <= i < s.count(total) ==> #[trigger] settled_by(s, o, total)[i] == s.sent + i,
        s.after(o, total).pause == 0,
        s.sent + s.count(total) < total ==> s.after(o, total).sent == s.sent + s.count(total)
            && s.after(o, total).chunk == s.chunk && !s.acks(o, total),
        s.sent + s.count(total) == total ==> s.acks(o, total) && s.after(o, total).sent == 0
            && s.after(o, total).chunk == usize::MAX,
{
}

/// A text is cut to as many characters as it may have, with an ellipsis behind them, and stays as
/// it is where it has no more.
pub proof fn long_texts_are_cut(s: Seq<char>, t: Seq<char>)
    ensures
        shortened(s, s.len()) == s,
        t.len() > 0 ==> shortened(s + t, s.len()) == s.push('\u{2026}'),
{
    assert((s + t).take(s.len() as int) =~= s);
}

} // verus!
