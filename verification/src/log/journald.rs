//! The source: the systemd journal.
//!
//! The loop around the source reads records while there is room, offers them, and hands out
//! the batch when it is ready. A batch that was handed out stays until it is acknowledged; in
//! the meantime it only ever grows at its back.
use vstd::prelude::*;

use crate::config::JournaldSourceConfig;
use crate::error::{Error, Result};
use crate::labels::{self, Label, Labels};
use crate::log::source::{self, Batch, Cursor, EntryView, LogEntry};
use crate::number;
use crate::ordered::{self, OrderedMap};
use crate::text;
use crate::time::{Deadline, Duration, Instant, Timestamp};

verus! {

pub type Fields = Map<Seq<char>, Seq<char>>;

// Records

/// The labels that come from fields: each label has the value of its field, where the record
/// has the field.
pub open spec fn projected(mapping: Fields, record: Fields) -> Fields {
    Map::new(
        |label: Seq<char>| mapping.dom().contains(label) && record.dom().contains(mapping[label]),
        |label: Seq<char>| record[mapping[label]],
    )
}

fn project(mapping: &Labels, record: &Labels, message: &str) -> (r: Labels)
    ensures
        r@ == projected(mapping@, record@.remove(message@)),
{
    let n: usize = mapping.len();
    let ghost l = mapping.listing();
    let ghost fields = record@.remove(message@);
    let mut r: Labels = OrderedMap::new();
    let mut i: usize = 0;
    proof {
        ordered::ascending_distinct::<String, Seq<char>>(l);
        assert(r@ =~= projected(ordered::as_map(l.take(0)), fields));
    }
    while i < n
        invariant
            i <= n,
            n == l.len(),
            l == mapping.listing(),
            fields == record@.remove(message@),
            forall|x: int, y: int|
                0 <= x < l.len() && 0 <= y < l.len() && (#[trigger] l[x]).0 == (#[trigger] l[y]).0
                    ==> x == y,
            r@ == projected(ordered::as_map(l.take(i as int)), fields),
        decreases n - i,
    {
        let label = mapping.key_at(i);
        let field = mapping.value_at(i);
        let ghost before = r@;
        let ghost p = ordered::as_map(l.take(i as int));
        let ghost q = ordered::as_map(l.take(i + 1));
        proof {
            labels::taken_map(l, i as int);
        }
        if !text::same(field.as_str(), message) {
            match record.get(field) {
                Some(v) => {
                    r.insert(label.clone(), v.clone());
                    assert(r@ =~= projected(q, fields));
                },
                None => {
                    proof {
                        unmapped(p, label@, field@, fields, l, i as int);
                    }
                    assert(r@ =~= projected(q, fields));
                },
            }
        } else {
            proof {
                unmapped(p, label@, field@, fields, l, i as int);
            }
            assert(r@ =~= projected(q, fields));
        }
        i = i + 1;
    }
    assert(l.take(n as int) =~= l);
    r
}

/// A label without its field adds nothing.
proof fn unmapped(p: Fields, label: Seq<char>, field: Seq<char>, fields: Fields, l: Seq<Label>, i: int)
    requires
        0 <= i < l.len(),
        p == ordered::as_map(l.take(i)),
        l[i] == (label, field),
        !fields.dom().contains(field),
        forall|x: int, y: int|
            0 <= x < l.len() && 0 <= y < l.len() && (#[trigger] l[x]).0 == (#[trigger] l[y]).0 ==> x
                == y,
    ensures
        projected(p.insert(label, field), fields) == projected(p, fields),
{
    assert(!p.dom().contains(label)) by {
        if ordered::has_key(l.take(i), label) {
            let k = ordered::key_index(l.take(i), label);
            assert(l.take(i)[k] == l[k]);
            assert(l[k].0 == l[i].0);
        }
    }
    assert(projected(p.insert(label, field), fields) =~= projected(p, fields));
}

/// The time of a record: what the journal says, in microseconds since the start of 1970, or
/// the present where it says nothing that can be read.
pub open spec fn record_time(record: Fields, now: int) -> int {
    if record.dom().contains("__REALTIME_TIMESTAMP"@) {
        match number::unsigned(record["__REALTIME_TIMESTAMP"@], u64::MAX as int) {
            Ok(us) => us * 1000,
            Err(_) => now,
        }
    } else {
        now
    }
}

/// The message of a record.
pub open spec fn record_message(record: Fields) -> Seq<char> {
    if record.dom().contains("MESSAGE"@) {
        record["MESSAGE"@]
    } else {
        Seq::empty()
    }
}

/// The labels of a record: those that come from its fields over those of every entry of this
/// instance, and the configured static ones over both.
pub open spec fn record_labels(
    record: Fields,
    mapping: Fields,
    always: Fields,
    fixed: Fields,
) -> Fields {
    labels::overlaid(
        labels::overlaid(always, projected(mapping, record.remove("MESSAGE"@))),
        fixed,
    )
}

/// An entry says what a record says.
pub open spec fn entry_of(
    e: LogEntry,
    record: Fields,
    now: int,
    mapping: Fields,
    always: Fields,
    fixed: Fields,
    metadata: Fields,
) -> bool {
    &&& e.timestamp@ == record_time(record, now)
    &&& e.message@ == record_message(record)
    &&& e.labels@ == record_labels(record, mapping, always, fixed)
    &&& e.metadata@ == projected(metadata, record.remove("MESSAGE"@))
}

fn time_of(record: &Labels, now: Timestamp) -> (r: Timestamp)
    ensures
        r@ == record_time(record@, now@),
{
    let key = text::owned("__REALTIME_TIMESTAMP");
    match record.get(&key) {
        Some(s) => match number::parse_u64(s.as_str()) {
            Ok(us) => Timestamp { nanos: us as i128 * 1000 },
            Err(_) => now,
        },
        None => now,
    }
}

/// Reads the entry in a record.
pub fn record_to_entry(
    record: &Labels,
    now: Timestamp,
    mapping: &Labels,
    always: &Labels,
    fixed: &Labels,
    metadata: &Labels,
) -> (e: LogEntry)
    ensures
        entry_of(e, record@, now@, mapping@, always@, fixed@, metadata@),
{
    let key = text::owned("MESSAGE");
    let message = match record.get(&key) {
        Some(m) => m.clone(),
        None => {
            let none = String::new();
            assert(none@ =~= Seq::empty());
            none
        },
    };
    let mut l = labels::copied(always);
    let own = project(mapping, record, "MESSAGE");
    labels::overlay(&mut l, &own);
    labels::overlay(&mut l, fixed);
    LogEntry {
        timestamp: time_of(record, now),
        message,
        labels: l,
        metadata: project(metadata, record, "MESSAGE"),
    }
}

// Batches

/// An entry that did not fit into the batch, with its cursor and when it was read.
struct Held {
    entry: LogEntry,
    cursor: Cursor,
    at: Instant,
}

/// The state of the source.
pub struct JournaldSource {
    name: String,
    batch_size: usize,
    batch_max_bytes: usize,
    batch_wait: Duration,
    labels: Labels,
    always: Labels,
    static_labels: Labels,
    metadata: Labels,
    last_acked: Option<Cursor>,
    batch: Batch,
    since: Instant,
    held: Option<Held>,
    in_flight: bool,
}

/// An entry with its cursor.
pub type Read = (EntryView, Seq<char>);

/// What the state of the source says.
pub struct SourceView {
    /// The entries of the batch.
    pub entries: Seq<EntryView>,
    /// The cursor of the last entry of the batch.
    pub end_cursor: Seq<char>,
    /// The entry that did not fit into the batch.
    pub held: Option<Read>,
    /// When the first entry of the batch was read.
    pub since: nat,
    /// When the held entry was read.
    pub held_since: nat,
    /// The batch has been handed out.
    pub in_flight: bool,
    pub last_acked: Option<Seq<char>>,
    /// The most entries in a batch.
    pub size: nat,
    /// The approximate size of a batch, none where it is 0.
    pub max_bytes: nat,
    /// How long a batch that is not full is held back.
    pub wait: nat,
}

impl View for JournaldSource {
    type V = SourceView;

    closed spec fn view(&self) -> SourceView {
        SourceView {
            entries: source::entry_views(self.batch.entries@),
            end_cursor: self.batch.end_cursor@,
            held: match self.held {
                Some(h) => Some((h.entry@, h.cursor@)),
                None => None,
            },
            since: self.since@,
            held_since: match self.held {
                Some(h) => h.at@,
                None => 0,
            },
            in_flight: self.in_flight,
            last_acked: match self.last_acked {
                Some(c) => Some(c@),
                None => None,
            },
            size: self.batch_size as nat,
            max_bytes: self.batch_max_bytes as nat,
            wait: self.batch_wait@,
        }
    }
}

impl SourceView {
    /// Another entry would take the batch over its size in bytes. The first entry never
    /// does: one that is too large on its own is still handed out.
    pub open spec fn overflows(self, e: EntryView) -> bool {
        self.max_bytes > 0 && self.entries.len() > 0 && source::entries_size(self.entries)
            + source::entry_size(e) > self.max_bytes
    }

    /// The batch has all the entries that it will have before it is acknowledged.
    pub open spec fn full(self) -> bool {
        self.held is Some || self.entries.len() >= self.size
    }

    /// The batch is to be handed out: it is full, has waited long enough, or has been handed
    /// out before.
    pub open spec fn ready(self, now: nat) -> bool {
        self.entries.len() > 0 && (self.in_flight || self.full() || self.since + self.wait <= now)
    }

    /// The entries that have been read and not acknowledged, in the order of the journal.
    pub open spec fn pending(self) -> Seq<EntryView> {
        match self.held {
            Some(h) => self.entries.push(h.0),
            None => self.entries,
        }
    }

    /// The state after an entry has been read: it is in the batch, or it is held where it
    /// would take the batch over its size.
    pub open spec fn offered(self, e: EntryView, cursor: Seq<char>, now: nat) -> SourceView {
        if self.overflows(e) {
            SourceView { held: Some((e, cursor)), held_since: now, ..self }
        } else {
            SourceView {
                entries: self.entries.push(e),
                end_cursor: cursor,
                since: if self.entries.len() == 0 {
                    now
                } else {
                    self.since
                },
                ..self
            }
        }
    }

    /// The state after the batch has been acknowledged up to a cursor: the next batch starts
    /// with the entry that was held, if there was one.
    pub open spec fn acked(self, cursor: Seq<char>) -> SourceView {
        SourceView {
            entries: match self.held {
                Some(h) => seq![h.0],
                None => Seq::empty(),
            },
            end_cursor: match self.held {
                Some(h) => h.1,
                None => Seq::empty(),
            },
            since: self.held_since,
            held: None,
            held_since: 0,
            in_flight: false,
            last_acked: Some(cursor),
            ..self
        }
    }

    /// An entry is held only where there are others before it.
    pub open spec fn valid(self) -> bool {
        self.held is Some ==> self.entries.len() > 0
    }
}

impl JournaldSource {
    #[verifier::type_invariant]
    spec fn inv(self) -> bool {
        self.batch.wf() && (self.held matches Some(h) ==> self.batch.entries@.len() > 0
            && source::entry_size(h.entry@) <= usize::MAX)
    }

    /// The labels of fields, those of every entry of this instance, the configured static
    /// ones, and the metadata.
    pub closed spec fn mapping(&self) -> (Fields, Fields, Fields, Fields) {
        (self.labels@, self.always@, self.static_labels@, self.metadata@)
    }

    /// A source with nothing read, at the last cursor that was acknowledged.
    pub fn new(
        name: &str,
        config: &JournaldSourceConfig,
        extra_static_labels: Labels,
        last_acked: Option<Cursor>,
    ) -> (s: JournaldSource)
        ensures
            s.called() == name@,
            s.mapping() == (
                config.labels@,
                extra_static_labels@,
                config.static_labels@,
                config.metadata@,
            ),
            s@.valid(),
            s@ == (SourceView {
                entries: Seq::empty(),
                end_cursor: Seq::empty(),
                held: None,
                since: 0,
                held_since: 0,
                in_flight: false,
                last_acked: match last_acked {
                    Some(c) => Some(c@),
                    None => None,
                },
                size: config.batch_size as nat,
                max_bytes: config.batch_max_bytes as nat,
                wait: config.batch_wait@,
            }),
    {
        let batch: Batch = Batch::default();
        let s = JournaldSource {
            name: text::owned(name),
            batch_size: config.batch_size,
            batch_max_bytes: config.batch_max_bytes,
            batch_wait: config.batch_wait,
            labels: labels::copied(&config.labels),
            always: extra_static_labels,
            static_labels: labels::copied(&config.static_labels),
            metadata: labels::copied(&config.metadata),
            last_acked,
            batch,
            since: Instant { nanos: 0 },
            held: None,
            in_flight: false,
        };
        assert(s@.entries =~= Seq::empty());
        assert(s@.end_cursor =~= Seq::empty());
        s
    }

    /// What the source is called.
    pub closed spec fn called(&self) -> Seq<char> {
        self.name@
    }

    /// The name, for reports.
    pub fn name(&self) -> (r: &str)
        ensures
            r@ == self.called(),
    {
        self.name.as_str()
    }

    /// The entry in a record.
    pub fn read(&self, record: &Labels, now: Timestamp) -> (e: LogEntry)
        ensures
            ({
                let (mapping, always, fixed, metadata) = self.mapping();
                entry_of(e, record@, now@, mapping, always, fixed, metadata)
            }),
    {
        record_to_entry(
            record,
            now,
            &self.labels,
            &self.always,
            &self.static_labels,
            &self.metadata,
        )
    }

    /// Whether another record may be read.
    pub fn has_room(&self) -> (r: bool)
        ensures
            r == !self@.full(),
            self@.valid(),
    {
        proof {
            use_type_invariant(self);
        }
        self.held.is_none() && self.batch.entries.len() < self.batch_size
    }

    /// Whether the sizes of the entries with another one fit in `usize`.
    pub fn can_count(&self, e: &LogEntry) -> (r: bool)
        ensures
            r == (source::entries_size(self@.entries) + source::entry_size(e@) <= usize::MAX),
    {
        proof {
            use_type_invariant(self);
        }
        match e.checked_size() {
            Some(n) => n <= usize::MAX - self.batch.approx_bytes,
            None => false,
        }
    }

    /// Takes an entry that was read from the journal, with its cursor.
    pub fn offer(&mut self, e: LogEntry, cursor: Cursor, now: Instant)
        requires
            !old(self)@.full(),
            source::entries_size(old(self)@.entries) + source::entry_size(e@) <= usize::MAX,
        ensures
            old(self)@.valid(),
            final(self)@.valid(),
            final(self)@ == old(self)@.offered(e@, cursor@, now@),
            final(self).mapping() == old(self).mapping(),
            final(self).called() == old(self).called(),
    {
        proof {
            use_type_invariant(&*self);
        }
        let size: usize = e.approx_size();
        let empty = self.batch.entries.len() == 0;
        if self.batch_max_bytes > 0 && !empty && self.batch.approx_bytes + size
            > self.batch_max_bytes {
            self.held = Some(Held { entry: e, cursor, at: now });
            return;
        }
        let mut batch: Batch = Batch::default();
        std::mem::swap(&mut batch, &mut self.batch);
        let ghost had = batch.entries@;
        batch.push(e, cursor);
        assert(source::entry_views(batch.entries@) =~= source::entry_views(had).push(e@));
        self.batch = batch;
        if empty {
            self.since = now;
        }
    }

    /// Whether the batch is to be handed out.
    pub fn is_ready(&self, now: Instant) -> (r: bool)
        ensures
            r == self@.ready(now@),
    {
        if self.batch.entries.len() == 0 {
            return false;
        }
        self.in_flight || self.held.is_some() || self.batch.entries.len() >= self.batch_size
            || now.reached(self.since.after(self.batch_wait))
    }

    /// When a batch that is not full is to be handed out.
    pub fn deadline(&self) -> (r: Option<Deadline>)
        ensures
            match r {
                Some(d) => self@.entries.len() > 0 && d@ == self@.since + self@.wait,
                None => self@.entries.len() == 0,
            },
    {
        if self.batch.entries.len() == 0 {
            None
        } else {
            Some(self.since.after(self.batch_wait))
        }
    }

    /// Hands out the batch. It stays until it is acknowledged.
    pub fn peek_batch(&mut self) -> (r: &Batch)
        ensures
            final(self)@ == (SourceView { in_flight: true, ..old(self)@ }),
            final(self).mapping() == old(self).mapping(),
            final(self).called() == old(self).called(),
            source::entry_views(r.entries@) == old(self)@.entries,
            r.end_cursor@ == old(self)@.end_cursor,
            r.wf(),
    {
        proof {
            use_type_invariant(&*self);
        }
        self.in_flight = true;
        &self.batch
    }

    /// Takes the acknowledgement of the batch, once its cursor has been saved.
    pub fn ack(&mut self, cursor: Cursor)
        ensures
            old(self)@.valid(),
            final(self)@.valid(),
            final(self)@ == old(self)@.acked(cursor@),
            final(self).mapping() == old(self).mapping(),
            final(self).called() == old(self).called(),
    {
        proof {
            use_type_invariant(&*self);
        }
        let mut held: Option<Held> = None;
        std::mem::swap(&mut held, &mut self.held);
        let mut batch: Batch = Batch::default();
        assert(source::entry_views(batch.entries@) =~= Seq::empty());
        assert(batch.end_cursor@ =~= Seq::empty());
        match held {
            Some(h) => {
                self.since = h.at;
                batch.push(h.entry, h.cursor);
                assert(source::entry_views(batch.entries@) =~= seq![h.entry@]);
            },
            None => {
                self.since = Instant { nanos: 0 };
            },
        }
        self.batch = batch;
        self.in_flight = false;
        self.last_acked = Some(cursor);
    }

    /// The last cursor that was acknowledged.
    pub fn last_acked(&self) -> (r: &Option<Cursor>)
        ensures
            match *r {
                Some(c) => self@.last_acked == Some(c@),
                None => self@.last_acked is None,
            },
    {
        &self.last_acked
    }
}

// Where reading starts

/// A move in the journal.
pub enum Move {
    /// To the entry with a cursor.
    Cursor(Cursor),
    /// To the next entry, from the one with the cursor: that one has been acknowledged.
    Next,
    /// Behind the last entry. Where there is no cursor the last entry is visited first, as
    /// the journal finds what is appended later only from an entry.
    Tail { visit_last: bool },
    /// To the last entry, from behind it.
    Previous,
}

/// What comes after a move.
pub enum After {
    /// Another move.
    Then(Move),
    /// The journal is in place.
    Ready,
    /// The move failed, and nothing is done about it: the word for it in the report.
    Fail(&'static str),
}

/// The first move: to the cursor that was acknowledged last, or to the end where there is
/// none.
pub fn first_move(last_acked: &Option<Cursor>) -> (m: Move)
    ensures
        match *last_acked {
            Some(c) => m matches Move::Cursor(d) && d@ == c@,
            None => m == (Move::Tail { visit_last: true }),
        },
{
    match last_acked {
        Some(c) => Move::Cursor(c.clone()),
        None => Move::Tail { visit_last: true },
    }
}

/// What comes after a move that succeeded or failed. A cursor that the journal does not have
/// any more is given up for the end.
pub open spec fn follows(m: Move, ok: bool, a: After) -> bool {
    match m {
        Move::Cursor(_) => if ok {
            a == After::Then(Move::Next)
        } else {
            a == After::Then(Move::Tail { visit_last: false })
        },
        Move::Next => if ok {
            a == After::Ready
        } else {
            a matches After::Fail(w) && w@ == "next after seek"@
        },
        Move::Tail { visit_last } => if !ok {
            a matches After::Fail(w) && w@ == "seek_tail"@
        } else if visit_last {
            a == After::Then(Move::Previous)
        } else {
            a == After::Ready
        },
        Move::Previous => if ok {
            a == After::Ready
        } else {
            a matches After::Fail(w) && w@ == "previous after seek_tail"@
        },
    }
}

/// Says what comes after a move.
pub fn after_move(m: &Move, ok: bool) -> (a: After)
    ensures
        follows(*m, ok, a),
{
    match m {
        Move::Cursor(_) => if ok {
            After::Then(Move::Next)
        } else {
            After::Then(Move::Tail { visit_last: false })
        },
        Move::Next => if ok {
            After::Ready
        } else {
            After::Fail("next after seek")
        },
        Move::Tail { visit_last } => if !ok {
            After::Fail("seek_tail")
        } else if *visit_last {
            After::Then(Move::Previous)
        } else {
            After::Ready
        },
        Move::Previous => if ok {
            After::Ready
        } else {
            After::Fail("previous after seek_tail")
        },
    }
}

/// A failure of the journal: what was tried, and why it failed.
pub fn journal_error(what: &str, e: &str) -> (r: Error)
    ensures
        r matches Error::Source(m) && m@ == what@ + ": "@ + e@,
{
    Error::Source(text::cat3(what, ": ", e))
}

/// What came of reading the file with the cursor.
pub enum CursorFile {
    Text(String),
    Missing,
    Unreadable(String),
}

/// The cursor that was saved: none where there is no file, or nothing in it.
pub fn read_saved_cursor(path: &str, file: &CursorFile) -> (r: Result<Option<Cursor>>)
    ensures
        match *file {
            CursorFile::Text(s) => r matches Ok(c) && match c {
                Some(c) => text::trimmed(s@).len() > 0 && c@ == text::trimmed(s@),
                None => text::trimmed(s@).len() == 0,
            },
            CursorFile::Missing => r matches Ok(c) && c is None,
            CursorFile::Unreadable(e) => r matches Err(Error::FileRead { path: p, source })
                && p@ == path@ && source@ == e@,
        },
{
    match file {
        CursorFile::Text(s) => {
            let t = text::trim(s.as_str());
            if t.as_str().is_empty() {
                Ok(None)
            } else {
                Ok(Some(t))
            }
        },
        CursorFile::Missing => Ok(None),
        CursorFile::Unreadable(e) => Err(
            Error::FileRead { path: text::owned(path), source: e.clone() },
        ),
    }
}

// Laws

/// What has been read and not acknowledged is what was before, and then the entry that is
/// offered: nothing is lost, reordered or taken twice.
pub proof fn offered_entry_is_pending(s: SourceView, e: EntryView, cursor: Seq<char>, now: nat)
    requires
        s.valid(),
        !s.full(),
    ensures
        s.offered(e, cursor, now).pending() == s.pending().push(e),
        s.entries.is_prefix_of(s.offered(e, cursor, now).entries),
{
    assert(s.entries.is_prefix_of(s.entries.push(e))) by {
        assert(s.entries.push(e).subrange(0, s.entries.len() as int) =~= s.entries);
    }
    assert(s.entries.subrange(0, s.entries.len() as int) =~= s.entries);
}

/// An acknowledgement takes the entries of the batch, and leaves those behind it.
pub proof fn ack_takes_the_batch(s: SourceView, cursor: Seq<char>)
    ensures
        s.pending() == s.entries + s.acked(cursor).pending(),
{
    assert(s.pending() =~= s.entries + s.acked(cursor).pending());
}

/// The batch is within its limits: no more entries than it may have, and no larger than it may
/// be unless it is a single entry.
pub open spec fn within_limits(s: SourceView) -> bool {
    &&& s.entries.len() <= s.size
    &&& s.max_bytes > 0 && s.entries.len() > 1 ==> source::entries_size(s.entries) <= s.max_bytes
}

/// Reading and acknowledging keep the batch within its limits.
pub proof fn batch_stays_within_limits(s: SourceView, e: EntryView, cursor: Seq<char>, now: nat)
    requires
        s.valid(),
        within_limits(s),
    ensures
        !s.full() ==> within_limits(s.offered(e, cursor, now)),
        within_limits(s.acked(cursor)),
{
    assert(s.entries.push(e).drop_last() =~= s.entries);
}

/// The source is at a place in the journal: what lies before `a` has been acknowledged, what
/// lies from `a` to `b` is in the batch, and the entry at `b` may be held.
pub open spec fn stands_in(s: SourceView, journal: Seq<Read>, a: int, b: int) -> bool {
    &&& 0 <= a <= b <= journal.len()
    &&& s.entries == journal.subrange(a, b).map_values(|r: Read| r.0)
    &&& b > a ==> s.end_cursor == journal[b - 1].1
    &&& s.held matches Some(h) ==> b < journal.len() && a < b && h == journal[b]
    &&& a > 0 ==> s.last_acked == Some(journal[a - 1].1)
}

/// Where the source reads on.
pub open spec fn reads_at(s: SourceView, b: int) -> int {
    if s.held is Some {
        b + 1
    } else {
        b
    }
}

/// Reading the next entry of the journal moves the source by that entry.
pub proof fn reading_moves_on(s: SourceView, journal: Seq<Read>, a: int, b: int, now: nat)
    requires
        stands_in(s, journal, a, b),
        !s.full(),
        b < journal.len(),
    ensures
        ({
            let t = s.offered(journal[b].0, journal[b].1, now);
            let c = if s.overflows(journal[b].0) {
                b
            } else {
                b + 1
            };
            stands_in(t, journal, a, c) && reads_at(t, c) == b + 1
        }),
{
    if !s.overflows(journal[b].0) {
        assert(journal.subrange(a, b + 1).map_values(|r: Read| r.0) =~= s.entries.push(
            journal[b].0,
        ));
    }
}

/// Acknowledging the batch by its cursor moves the source behind the batch, and no further:
/// an entry that was held is the first of the next batch.
pub proof fn acknowledging_moves_on(s: SourceView, journal: Seq<Read>, a: int, b: int)
    requires
        stands_in(s, journal, a, b),
        a < b,
    ensures
        stands_in(s.acked(s.end_cursor), journal, b, reads_at(s, b)),
        reads_at(s.acked(s.end_cursor), reads_at(s, b)) == reads_at(s, b),
        s.acked(s.end_cursor).last_acked == Some(journal[b - 1].1),
{
    let t = s.acked(s.end_cursor);
    assert(t.entries =~= journal.subrange(b, reads_at(s, b)).map_values(|r: Read| r.0));
}

/// A source that is started anew behind the last cursor that was acknowledged reads on with
/// the first entry that was not: a restart neither loses nor repeats what was acknowledged.
pub proof fn restart_resumes(s: SourceView, fresh: SourceView, journal: Seq<Read>, a: int, b: int)
    requires
        stands_in(s, journal, a, b),
        fresh.entries.len() == 0,
        fresh.held is None,
        fresh.last_acked == s.last_acked,
    ensures
        stands_in(fresh, journal, a, a),
        reads_at(fresh, a) == a,
{
    assert(fresh.entries =~= journal.subrange(a, a).map_values(|r: Read| r.0));
}

/// The journal counts microseconds, and an entry nanoseconds: whatever the number is, the entry is
/// of that time. A record without a number is of the present.
pub proof fn records_are_of_their_time(record: Fields, us: u64, now: int)
    ensures
        record.dom().contains("__REALTIME_TIMESTAMP"@) && record["__REALTIME_TIMESTAMP"@]
            == number::decimal(us as nat) ==> record_time(record, now) == 1000 * us,
        !record.dom().contains("__REALTIME_TIMESTAMP"@) ==> record_time(record, now) == now,
        record.dom().contains("__REALTIME_TIMESTAMP"@)
            && record["__REALTIME_TIMESTAMP"@].len() == 0 ==> record_time(record, now) == now,
{
    number::decimal_is_read_back(us);
}

/// The message of an entry is the field of that name, whatever the other fields hold.
pub proof fn the_message_is_the_field_of_that_name(record: Fields)
    ensures
        record.dom().contains("MESSAGE"@) ==> record_message(record) == record["MESSAGE"@],
        !record.dom().contains("MESSAGE"@) ==> record_message(record).len() == 0,
{
}

/// A label is the static one where there is one of its name; otherwise the field that it is mapped
/// to, where the record has it and it is not the message; otherwise that of every entry of this
/// instance. There are no other labels.
pub proof fn static_labels_come_before_fields(
    record: Fields,
    mapping: Fields,
    always: Fields,
    fixed: Fields,
    name: Seq<char>,
)
    ensures
        ({
            let l = record_labels(record, mapping, always, fixed);
            let from_field = mapping.dom().contains(name) && mapping[name] != "MESSAGE"@
                && record.dom().contains(mapping[name]);
            &&& l.dom().contains(name) <==> fixed.dom().contains(name) || from_field
                || always.dom().contains(name)
            &&& fixed.dom().contains(name) ==> l[name] == fixed[name]
            &&& !fixed.dom().contains(name) && from_field ==> l[name] == record[mapping[name]]
            &&& !fixed.dom().contains(name) && !from_field && always.dom().contains(name) ==> l[name]
                == always[name]
        }),
{
}

/// An item of metadata is the field that it is mapped to, where the record has it and it is not the
/// message; and so is a label that comes from a field.
pub proof fn metadata_are_fields(record: Fields, mapping: Fields, name: Seq<char>)
    ensures
        ({
            let m = projected(mapping, record.remove("MESSAGE"@));
            let from_field = mapping.dom().contains(name) && mapping[name] != "MESSAGE"@
                && record.dom().contains(mapping[name]);
            &&& m.dom().contains(name) <==> from_field
            &&& from_field ==> m[name] == record[mapping[name]]
        }),
{
}

/// An entry says what the record says: its time, its message, its labels and its metadata, each in
/// its place.
pub proof fn entries_say_what_records_say(
    e: LogEntry,
    record: Fields,
    now: int,
    mapping: Fields,
    always: Fields,
    fixed: Fields,
    metadata: Fields,
)
    requires
        entry_of(e, record, now, mapping, always, fixed, metadata),
    ensures
        e.timestamp@ == record_time(record, now),
        e.message@ == record_message(record),
        e.labels@ == record_labels(record, mapping, always, fixed),
        e.metadata@ == projected(metadata, record.remove("MESSAGE"@)),
{
}

/// An entry that fits is put behind the others, and its cursor is that of the batch; one that does
/// not is held, and the batch stays as it is. The first entry always fits, and so does every entry
/// where there is no limit. The clock of a batch starts with its first entry.
pub proof fn an_entry_is_taken_or_held(s: SourceView, e: EntryView, cursor: Seq<char>, now: nat)
    ensures
        ({
            let t = s.offered(e, cursor, now);
            let fits = s.max_bytes == 0 || s.entries.len() == 0 || source::entries_size(s.entries)
                + source::entry_size(e) <= s.max_bytes;
            &&& fits ==> t.entries == s.entries.push(e) && t.end_cursor == cursor && t.held == s.held
                && t.held_since == s.held_since
            &&& !fits ==> t.entries == s.entries && t.end_cursor == s.end_cursor && t.held == Some(
                (e, cursor),
            ) && t.held_since == now
            &&& t.since == if s.entries.len() == 0 {
                now
            } else {
                s.since
            }
            &&& t.in_flight == s.in_flight && t.last_acked == s.last_acked
            &&& t.size == s.size && t.max_bytes == s.max_bytes && t.wait == s.wait
        }),
{
}

/// A batch is handed out where it has entries, and either was handed out before, or has as many
/// entries as it may have, or has an entry behind it that did not fit, or has waited long enough.
pub proof fn a_batch_is_handed_out_in_time(s: SourceView, now: nat)
    ensures
        s.ready(now) <==> s.entries.len() > 0 && (s.in_flight || s.held is Some || s.entries.len()
            >= s.size || now >= s.since + s.wait),
        s.full() <==> s.held is Some || s.entries.len() >= s.size,
        s.ready(now) ==> s.ready(now + 1),
{
}

/// An acknowledged batch is gone, with nothing left of it but its cursor. What was held is the next
/// batch, with its own cursor and its own time.
pub proof fn an_acknowledged_batch_is_gone(s: SourceView, cursor: Seq<char>)
    ensures
        ({
            let t = s.acked(cursor);
            &&& t.last_acked == Some(cursor)
            &&& !t.in_flight && t.held is None
            &&& s.held is None ==> t.entries.len() == 0 && t.end_cursor.len() == 0
            &&& s.held matches Some((e, c)) ==> t.entries == seq![e] && t.end_cursor == c && t.since
                == s.held_since
            &&& t.size == s.size && t.max_bytes == s.max_bytes && t.wait == s.wait
        }),
{
}

/// Reading starts behind the entry with the cursor, where the journal has it, and at the end
/// otherwise. The end without any cursor is found by way of the last entry.
pub proof fn reading_starts_behind_the_cursor(cursor: Cursor, a: After)
    ensures
        follows(Move::Cursor(cursor), true, a) ==> a == After::Then(Move::Next),
        follows(Move::Next, true, a) ==> a == After::Ready,
        follows(Move::Cursor(cursor), false, a) ==> a == After::Then(
            Move::Tail { visit_last: false },
        ),
        follows(Move::Tail { visit_last: false }, true, a) ==> a == After::Ready,
        follows(Move::Tail { visit_last: true }, true, a) ==> a == After::Then(Move::Previous),
        follows(Move::Previous, true, a) ==> a == After::Ready,
        follows(Move::Next, false, a) ==> (a matches After::Fail(w) && w@ == "next after seek"@),
        follows(Move::Previous, false, a) ==> (a matches After::Fail(w) && w@
            == "previous after seek_tail"@),
        forall|visit_last: bool|
            #[trigger] follows(Move::Tail { visit_last }, false, a) ==> (a matches After::Fail(w)
                && w@ == "seek_tail"@),
{
}

} // verus!
