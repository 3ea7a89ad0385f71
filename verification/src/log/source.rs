//! Log entries and the batches that a source hands to the shipper.
use vstd::prelude::*;

use crate::labels::{Label, Labels};
use crate::time::Timestamp;

verus! {

/// A position in a source. For the journal this is a journal cursor.
pub type Cursor = String;

/// A single log record. The source projects its fields into `labels` (few values,
/// grouped into streams by sinks that have streams) and `metadata` (one set per entry).
pub struct LogEntry {
    pub timestamp: Timestamp,
    pub message: String,
    pub labels: Labels,
    pub metadata: Labels,
}

/// What a log entry says.
pub struct EntryView {
    pub timestamp: int,
    pub message: Seq<char>,
    pub labels: Seq<Label>,
    pub metadata: Seq<Label>,
}

impl View for LogEntry {
    type V = EntryView;

    open spec fn view(&self) -> EntryView {
        EntryView {
            timestamp: self.timestamp@,
            message: self.message@,
            labels: self.labels.listing(),
            metadata: self.metadata.listing(),
        }
    }
}

/// What a list of entries says.
pub open spec fn entry_views(entries: Seq<LogEntry>) -> Seq<EntryView> {
    entries.map_values(|e: LogEntry| e@)
}

/// The number of bytes of a text in UTF-8.
pub open spec fn byte_len(s: Seq<char>) -> nat {
    vstd::utf8::encode_utf8(s).len()
}

/// The size of a list of fields: names, values and four bytes for each field.
pub open spec fn fields_size(fields: Seq<Label>) -> nat
    decreases fields.len(),
{
    if fields.len() == 0 {
        0
    } else {
        fields_size(fields.drop_last()) + byte_len(fields.last().0) + byte_len(fields.last().1) + 4
    }
}

/// The approximate size of an entry on the wire: message, labels and metadata, and
/// sixteen bytes for the timestamp and the length prefixes.
pub open spec fn entry_size(e: EntryView) -> nat {
    16 + byte_len(e.message) + fields_size(e.labels) + fields_size(e.metadata)
}

/// The approximate size of a list of entries.
pub open spec fn entries_size(entries: Seq<EntryView>) -> nat
    decreases entries.len(),
{
    if entries.len() == 0 {
        0
    } else {
        entries_size(entries.drop_last()) + entry_size(entries.last())
    }
}

proof fn fields_size_grows(fields: Seq<Label>, n: int)
    requires
        0 <= n <= fields.len(),
    ensures
        fields_size(fields.take(n)) <= fields_size(fields),
    decreases fields.len(),
{
    if n == fields.len() {
        assert(fields.take(n) =~= fields);
    } else {
        fields_size_grows(fields.drop_last(), n);
        assert(fields.drop_last().take(n) =~= fields.take(n));
    }
}

/// The size of a label set, as a list of fields.
fn fields_size_of(fields: &Labels) -> (n: usize)
    requires
        fields_size(fields.listing()) <= usize::MAX,
    ensures
        n == fields_size(fields.listing()),
{
    let count: usize = fields.len();
    let ghost l = fields.listing();
    let mut sum: usize = 0;
    let mut i: usize = 0;
    while i < count
        invariant
            l == fields.listing(),
            count == l.len(),
            i <= count,
            sum == fields_size(l.take(i as int)),
            fields_size(l) <= usize::MAX,
        decreases count - i,
    {
        proof {
            fields_size_grows(l, i + 1);
            assert(l.take(i + 1).drop_last() =~= l.take(i as int));
        }
        let name: usize = fields.key_at(i).as_str().len();
        let value: usize = fields.value_at(i).as_str().len();
        sum = sum + name + value + 4;
        i = i + 1;
    }
    assert(l.take(count as int) =~= l);
    sum
}

/// The size of a label set, as a list of fields, where it fits in `usize`.
fn checked_fields_size(fields: &Labels, start: usize) -> (r: Option<usize>)
    ensures
        match r {
            Some(n) => n == start + fields_size(fields.listing()),
            None => start + fields_size(fields.listing()) > usize::MAX,
        },
{
    let count: usize = fields.len();
    let ghost l = fields.listing();
    let mut sum: usize = start;
    let mut i: usize = 0;
    while i < count
        invariant
            l == fields.listing(),
            count == l.len(),
            i <= count,
            sum == start + fields_size(l.take(i as int)),
        decreases count - i,
    {
        proof {
            fields_size_grows(l, i + 1);
            assert(l.take(i + 1).drop_last() =~= l.take(i as int));
        }
        let name: usize = fields.key_at(i).as_str().as_bytes().len();
        let value: usize = fields.value_at(i).as_str().as_bytes().len();
        let size: u128 = name as u128 + value as u128 + 4;
        if sum as u128 + size > usize::MAX as u128 {
            return None;
        }
        sum = sum + name + value + 4;
        i = i + 1;
    }
    assert(l.take(count as int) =~= l);
    Some(sum)
}

impl LogEntry {
    /// The approximate size of the entry, where it fits in `usize`.
    pub fn checked_size(&self) -> (r: Option<usize>)
        ensures
            match r {
                Some(n) => n == entry_size(self@),
                None => entry_size(self@) > usize::MAX,
            },
    {
        let message: usize = self.message.as_str().as_bytes().len();
        if message > usize::MAX - 16 {
            return None;
        }
        match checked_fields_size(&self.labels, 16 + message) {
            Some(n) => checked_fields_size(&self.metadata, n),
            None => None,
        }
    }

    /// The approximate size of the entry on the wire. It errs high (labels count for
    /// every entry though a sink with streams sends them once per stream), so that a
    /// cap derived from it is safe.
    pub fn approx_size(&self) -> (n: usize)
        requires
            entry_size(self@) <= usize::MAX,
        ensures
            n == entry_size(self@),
    {
        let message: usize = self.message.as_str().len();
        let labels: usize = fields_size_of(&self.labels);
        let metadata: usize = fields_size_of(&self.metadata);
        16 + message + labels + metadata
    }
}

/// A batch of log entries with the cursor of the last one. The cursor goes back to the
/// source when the batch has been delivered.
pub struct Batch {
    pub entries: Vec<LogEntry>,
    pub end_cursor: Cursor,
    /// The sum of the approximate sizes of the entries.
    pub approx_bytes: usize,
}

impl Batch {
    /// `approx_bytes` is the sum that it is meant to be.
    pub open spec fn wf(&self) -> bool {
        self.approx_bytes == entries_size(entry_views(self.entries@))
    }

    /// Puts an entry behind the others and moves the cursor to it.
    pub fn push(&mut self, entry: LogEntry, cursor: Cursor)
        requires
            old(self).approx_bytes + entry_size(entry@) <= usize::MAX,
        ensures
            final(self).entries@ == old(self).entries@.push(entry),
            final(self).end_cursor == cursor,
            final(self).approx_bytes == old(self).approx_bytes + entry_size(entry@),
            old(self).wf() ==> final(self).wf(),
    {
        let size: usize = entry.approx_size();
        self.approx_bytes = self.approx_bytes + size;
        self.entries.push(entry);
        self.end_cursor = cursor;
        proof {
            let before = entry_views(old(self).entries@);
            let after = entry_views(self.entries@);
            assert(after.drop_last() =~= before);
            assert(after.last() == entry@);
        }
    }
}

impl Default for Batch {
    /// A batch without entries.
    fn default() -> (b: Batch)
        ensures
            b.wf(),
            b.entries@ == Seq::<LogEntry>::empty(),
            b.end_cursor@ == Seq::<char>::empty(),
            b.approx_bytes == 0,
    {
        let b = Batch { entries: Vec::new(), end_cursor: String::new(), approx_bytes: 0 };
        assert(entry_views(b.entries@) =~= Seq::empty());
        b
    }
}

// Laws

/// A field adds its name and its value in UTF-8 and four bytes, in the labels or the metadata, and
/// an entry without any has its message and sixteen bytes.
pub proof fn a_field_adds_its_bytes(e: EntryView, name: Seq<char>, value: Seq<char>)
    ensures
        entry_size(
            (EntryView { labels: Seq::empty(), metadata: Seq::empty(), ..e }),
        ) == vstd::utf8::encode_utf8(e.message).len() + 16,
        entry_size((EntryView { labels: e.labels.push((name, value)), ..e })) == entry_size(e)
            + vstd::utf8::encode_utf8(name).len() + vstd::utf8::encode_utf8(value).len() + 4,
        entry_size((EntryView { metadata: e.metadata.push((name, value)), ..e })) == entry_size(e)
            + vstd::utf8::encode_utf8(name).len() + vstd::utf8::encode_utf8(value).len() + 4,
{
    assert(e.labels.push((name, value)).drop_last() =~= e.labels);
    assert(e.metadata.push((name, value)).drop_last() =~= e.metadata);
}

/// An entry adds its size to that of a batch.
pub proof fn an_entry_adds_its_size(entries: Seq<EntryView>, e: EntryView)
    ensures
        entries_size(Seq::empty()) == 0,
        entries_size(entries.push(e)) == entries_size(entries) + entry_size(e),
{
    assert(entries.push(e).drop_last() =~= entries);
}

} // verus!
