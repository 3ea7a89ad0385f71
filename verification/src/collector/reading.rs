//! Readings: what a collector found, before names and labels are shared.
use vstd::prelude::*;

use crate::collector::label_cache::LabelCache;
use crate::labels::{self, Labels};
use crate::signal::{self, Metric, MetricType, NamePool, Value};
use crate::text;
use crate::time::Timestamp;

verus! {

/// A value that was read, with the labels that tell it apart.
pub struct Reading {
    pub name: String,
    pub value: Value,
    pub labels: Labels,
    pub metric_type: MetricType,
}

/// What a reading says.
#[verifier::ext_equal]
pub struct ReadingView {
    pub name: Seq<char>,
    pub value: Value,
    pub labels: Map<Seq<char>, Seq<char>>,
    pub metric_type: MetricType,
}

impl View for Reading {
    type V = ReadingView;

    open spec fn view(&self) -> ReadingView {
        ReadingView {
            name: self.name@,
            value: self.value,
            labels: self.labels@,
            metric_type: self.metric_type,
        }
    }
}

/// What a list of readings says.
pub open spec fn reading_views(r: Seq<Reading>) -> Seq<ReadingView> {
    r.map_values(|x: Reading| x@)
}

/// The reading of a gauge.
pub open spec fn gauge_view(
    name: Seq<char>,
    value: Value,
    labels: Map<Seq<char>, Seq<char>>,
) -> ReadingView {
    ReadingView { name, value, labels, metric_type: MetricType::Gauge }
}

/// The reading of a counter.
pub open spec fn counter_view(
    name: Seq<char>,
    value: Value,
    labels: Map<Seq<char>, Seq<char>>,
) -> ReadingView {
    ReadingView { name, value, labels, metric_type: MetricType::Counter }
}

/// The reading of a gauge.
pub fn gauge(name: &str, value: Value, labels: Labels) -> (r: Reading)
    ensures
        r@ == gauge_view(name@, value, labels@),
{
    Reading { name: text::owned(name), value, labels, metric_type: MetricType::Gauge }
}

/// The reading of a counter.
pub fn counter(name: &str, value: Value, labels: Labels) -> (r: Reading)
    ensures
        r@ == counter_view(name@, value, labels@),
{
    Reading { name: text::owned(name), value, labels, metric_type: MetricType::Counter }
}

/// Puts a reading behind the others.
pub fn push(out: &mut Vec<Reading>, r: Reading)
    ensures
        reading_views(final(out)@) == reading_views(old(out)@).push(r@),
{
    out.push(r);
    assert(reading_views(out@) =~= reading_views(old(out)@).push(r@));
}

/// Puts readings behind the others.
pub fn append(out: &mut Vec<Reading>, more: &mut Vec<Reading>)
    ensures
        reading_views(final(out)@) == reading_views(old(out)@)
            + reading_views(old(more)@),
        final(more)@ == Seq::<Reading>::empty(),
{
    out.append(more);
    assert(reading_views(out@) =~= reading_views(old(out)@)
        + reading_views(old(more)@));
}

/// A figure: the name of a metric, its value where there is one, and its kind.
pub struct Figure {
    pub name: &'static str,
    pub value: Option<Value>,
    pub metric_type: MetricType,
}

/// What a figure says.
#[verifier::ext_equal]
pub struct FigureView {
    pub name: Seq<char>,
    pub value: Option<Value>,
    pub metric_type: MetricType,
}

impl View for Figure {
    type V = FigureView;

    open spec fn view(&self) -> FigureView {
        FigureView { name: self.name@, value: self.value, metric_type: self.metric_type }
    }
}

/// What a list of figures says.
pub open spec fn figure_views(f: Seq<Figure>) -> Seq<FigureView> {
    f.map_values(|x: Figure| x@)
}

/// The figure of a gauge.
pub open spec fn gauge_figure_view(name: Seq<char>, value: Option<Value>) -> FigureView {
    FigureView { name, value, metric_type: MetricType::Gauge }
}

/// The figure of a counter.
pub open spec fn counter_figure_view(name: Seq<char>, value: Option<Value>) -> FigureView {
    FigureView { name, value, metric_type: MetricType::Counter }
}

/// The figure of a gauge.
pub fn gauge_figure(name: &'static str, value: Option<Value>) -> (f: Figure)
    ensures
        f@ == gauge_figure_view(name@, value),
{
    Figure { name, value, metric_type: MetricType::Gauge }
}

/// The figure of a counter.
pub fn counter_figure(name: &'static str, value: Option<Value>) -> (f: Figure)
    ensures
        f@ == counter_figure_view(name@, value),
{
    Figure { name, value, metric_type: MetricType::Counter }
}

/// The readings of some figures with the same labels. A figure without a value has none.
pub open spec fn figured(f: Seq<FigureView>, labels: Map<Seq<char>, Seq<char>>) -> Seq<ReadingView>
    decreases f.len(),
{
    if f.len() == 0 {
        Seq::empty()
    } else {
        let before = figured(f.drop_last(), labels);
        match f.last().value {
            Some(value) => before.push(
                ReadingView {
                    name: f.last().name,
                    value,
                    labels,
                    metric_type: f.last().metric_type,
                },
            ),
            None => before,
        }
    }
}

/// Reads some figures that share their labels.
pub fn figures(f: &Vec<Figure>, labels: &Labels) -> (r: Vec<Reading>)
    ensures
        reading_views(r@) == figured(figure_views(f@), labels@),
{
    let ghost all = figure_views(f@);
    let mut out: Vec<Reading> = Vec::new();
    let mut i: usize = 0;
    assert(reading_views(out@) =~= figured(all.take(0), labels@));
    while i < f.len()
        invariant
            i <= f@.len(),
            all == figure_views(f@),
            reading_views(out@) == figured(all.take(i as int), labels@),
        decreases f@.len() - i,
    {
        assert(all.take(i + 1).drop_last() =~= all.take(i as int));
        assert(all.take(i + 1).last() == f@[i as int]@);
        match f[i].value {
            Some(value) => {
                let r = Reading {
                    name: text::owned(f[i].name),
                    value,
                    labels: labels::copied(labels),
                    metric_type: f[i].metric_type,
                };
                push(&mut out, r);
            },
            None => {},
        }
        i = i + 1;
    }
    assert(all.take(i as int) =~= all);
    out
}

/// A measurement says what a reading said, with the base labels on top, at a time.
pub open spec fn measures(
    m: Metric,
    r: ReadingView,
    base: Map<Seq<char>, Seq<char>>,
    now: int,
) -> bool {
    &&& m.name@ == r.name
    &&& m.value == r.value
    &&& m.labels@ == labels::overlaid(r.labels, base)
    &&& m.timestamp@ == now
    &&& m.metric_type == r.metric_type
}

/// Turns readings into measurements, one for each and in the same order, with shared
/// names and label sets.
pub fn measured(
    readings: Vec<Reading>,
    cache: &mut LabelCache,
    pool: &mut NamePool,
    now: Timestamp,
) -> (r: Vec<Metric>)
    ensures
        r@.len() == readings@.len(),
        forall|i: int|
            0 <= i < readings@.len() ==> measures(
                #[trigger] r@[i],
                readings@[i]@,
                old(cache).base(),
                now@,
            ),
        final(cache).base() == old(cache).base(),
        final(cache).kept() == old(cache).kept().union(signal::label_sets_of(r@)),
        final(pool).names() == old(pool).names().union(signal::names_of(r@)),
{
    let mut out: Vec<Metric> = Vec::new();
    let ghost base = cache.base();
    proof {
        assert(cache.kept() =~= cache.kept().union(signal::label_sets_of(out@)));
        assert(pool.names() =~= pool.names().union(signal::names_of(out@)));
    }
    for reading in it: readings
        invariant
            it.seq() == readings@,
            out@.len() == it.index(),
            cache.base() == base,
            base == old(cache).base(),
            cache.kept() == old(cache).kept().union(signal::label_sets_of(out@)),
            pool.names() == old(pool).names().union(signal::names_of(out@)),
            forall|i: int|
                0 <= i < it.index() ==> measures(#[trigger] out@[i], readings@[i]@, base, now@),
    {
        let labels = cache.intern(reading.labels);
        let metric = match reading.metric_type {
            MetricType::Gauge => Metric::gauge(
                pool,
                reading.name.as_str(),
                reading.value,
                labels,
                now,
            ),
            MetricType::Counter => Metric::counter(
                pool,
                reading.name.as_str(),
                reading.value,
                labels,
                now,
            ),
        };
        assert(metric@.labels == labels.listing());
        assert(metric.labels@ == crate::ordered::as_map(metric@.labels));
        proof {
            signal::one_more_measurement(out@, metric);
        }
        out.push(metric);
        proof {
            assert(cache.kept() =~= old(cache).kept().union(signal::label_sets_of(out@)));
            assert(pool.names() =~= old(pool).names().union(signal::names_of(out@)));
        }
    }
    out
}

// Laws

/// The readings with a name, in their order.
pub open spec fn of_name(r: Seq<ReadingView>, name: Seq<char>) -> Seq<ReadingView> {
    r.filter(|x: ReadingView| x.name == name)
}

/// The single reading with a name, or none where there is no value.
pub open spec fn only(
    name: Seq<char>,
    value: Option<Value>,
    labels: Map<Seq<char>, Seq<char>>,
    metric_type: MetricType,
) -> Seq<ReadingView> {
    match value {
        Some(value) => seq![ReadingView { name, value, labels, metric_type }],
        None => Seq::empty(),
    }
}

/// The readings with a name are those of one list, and then those of the other.
pub proof fn of_name_joined(a: Seq<ReadingView>, b: Seq<ReadingView>, name: Seq<char>)
    ensures
        of_name(a + b, name) == of_name(a, name) + of_name(b, name),
    decreases b.len(),
{
    reveal(Seq::filter);
    if b.len() > 0 {
        of_name_joined(a, b.drop_last(), name);
        assert((a + b).drop_last() =~= a + b.drop_last());
        assert(of_name(a + b, name) =~= of_name(a, name) + of_name(b, name));
    } else {
        assert(a + b =~= a);
        assert(of_name(a, name) + of_name(b, name) =~= of_name(a, name));
    }
}

/// A reading is in two lists together where it is in one of them.
pub proof fn joined_contains(a: Seq<ReadingView>, b: Seq<ReadingView>, r: ReadingView)
    ensures
        (a + b).contains(r) <==> a.contains(r) || b.contains(r),
{
    if a.contains(r) {
        let i = choose|i: int| 0 <= i < a.len() && a[i] == r;
        assert((a + b)[i] == r);
    }
    if b.contains(r) {
        let i = choose|i: int| 0 <= i < b.len() && b[i] == r;
        assert((a + b)[a.len() + i] == r);
    }
    if (a + b).contains(r) {
        let i = choose|i: int| 0 <= i < (a + b).len() && (a + b)[i] == r;
        if i >= a.len() {
            assert(b[i - a.len()] == r);
        } else {
            assert(a[i] == r);
        }
    }
}

/// Lists of readings, one after the other.
pub open spec fn chained(lists: Seq<Seq<ReadingView>>) -> Seq<ReadingView>
    decreases lists.len(),
{
    if lists.len() == 0 {
        Seq::empty()
    } else {
        chained(lists.drop_last()) + lists.last()
    }
}

/// A reading is in a chain of lists exactly where it is in one of them.
pub proof fn chained_contains(lists: Seq<Seq<ReadingView>>, r: ReadingView)
    ensures
        chained(lists).contains(r) <==> exists|i: int|
            0 <= i < lists.len() && (#[trigger] lists[i]).contains(r),
    decreases lists.len(),
{
    if lists.len() > 0 {
        let t = lists.drop_last();
        chained_contains(t, r);
        joined_contains(chained(t), lists.last(), r);
        assert(lists[lists.len() - 1] == lists.last());
        if chained(t).contains(r) {
            let i = choose|i: int| 0 <= i < t.len() && (#[trigger] t[i]).contains(r);
            assert(lists[i].contains(r));
        }
        if exists|i: int| 0 <= i < lists.len() && (#[trigger] lists[i]).contains(r) {
            let i = choose|i: int| 0 <= i < lists.len() && (#[trigger] lists[i]).contains(r);
            if i < t.len() {
                assert(t[i].contains(r));
            }
        }
    }
}

/// Every reading has a name.
pub open spec fn all_named(r: Seq<ReadingView>, name: Seq<char>) -> bool {
    forall|i: int| 0 <= i < r.len() ==> (#[trigger] r[i]).name == name
}

/// No reading has a name.
pub open spec fn none_named(r: Seq<ReadingView>, name: Seq<char>) -> bool {
    forall|i: int| 0 <= i < r.len() ==> (#[trigger] r[i]).name != name
}

/// Of readings that all have a name, all are of that name, and none is of another.
pub proof fn of_name_uniform(r: Seq<ReadingView>, name: Seq<char>)
    ensures
        all_named(r, name) ==> of_name(r, name) == r,
        none_named(r, name) ==> of_name(r, name) == Seq::<ReadingView>::empty(),
    decreases r.len(),
{
    reveal(Seq::filter);
    if r.len() > 0 {
        let t = r.drop_last();
        of_name_uniform(t, name);
        assert(r[r.len() - 1] == r.last());
        if all_named(r, name) {
            assert forall|i: int| 0 <= i < t.len() implies (#[trigger] t[i]).name == name by {
                assert(t[i] == r[i]);
            }
            assert(t.push(r.last()) =~= r);
        }
        if none_named(r, name) {
            assert forall|i: int| 0 <= i < t.len() implies (#[trigger] t[i]).name != name by {
                assert(t[i] == r[i]);
            }
        }
    }
}

/// A reading whose name no other reading has is the only one of that name.
pub proof fn a_reading_of_its_own_name(r: Seq<ReadingView>, k: int)
    requires
        0 <= k < r.len(),
        forall|j: int| 0 <= j < r.len() && j != k ==> (#[trigger] r[j]).name != r[k].name,
    ensures
        of_name(r, r[k].name) == seq![r[k]],
{
    let name = r[k].name;
    let a = r.take(k);
    let one = seq![r[k]];
    let b = r.skip(k + 1);
    assert(r =~= a + one + b);
    of_name_joined(a, one, name);
    of_name_joined(a + one, b, name);
    assert(none_named(a, name)) by {
        assert(forall|i: int| 0 <= i < a.len() ==> #[trigger] a[i] == r[i]);
    }
    assert(none_named(b, name)) by {
        assert(forall|i: int| 0 <= i < b.len() ==> #[trigger] b[i] == r[k + 1 + i]);
    }
    of_name_uniform(a, name);
    of_name_uniform(one, name);
    of_name_uniform(b, name);
    assert(Seq::<ReadingView>::empty() + one + Seq::<ReadingView>::empty() =~= one);
}

/// One more list in a chain comes behind the others.
pub proof fn chained_pushed(lists: Seq<Seq<ReadingView>>, last: Seq<ReadingView>)
    ensures
        chained(lists.push(last)) == chained(lists) + last,
{
    assert(lists.push(last).drop_last() =~= lists);
}

/// Where only one list of a chain has readings of a name, the chain has just those.
pub proof fn of_name_in_one_list(lists: Seq<Seq<ReadingView>>, k: int, name: Seq<char>)
    requires
        0 <= k < lists.len(),
        forall|j: int| 0 <= j < lists.len() && j != k ==> none_named(#[trigger] lists[j], name),
    ensures
        of_name(chained(lists), name) == of_name(lists[k], name),
    decreases lists.len(),
{
    let t = lists.drop_last();
    assert(lists.last() == lists[lists.len() - 1]);
    of_name_joined(chained(t), lists.last(), name);
    assert(forall|j: int| 0 <= j < t.len() ==> #[trigger] t[j] == lists[j]);
    if k < t.len() {
        of_name_in_one_list(t, k, name);
        of_name_uniform(lists.last(), name);
        assert(of_name(t[k], name) + Seq::<ReadingView>::empty() =~= of_name(t[k], name));
    } else {
        chained_without(t, name);
        of_name_uniform(chained(t), name);
        assert(Seq::<ReadingView>::empty() + of_name(lists[k], name) =~= of_name(lists[k], name));
    }
}

proof fn chained_without(lists: Seq<Seq<ReadingView>>, name: Seq<char>)
    requires
        forall|j: int| 0 <= j < lists.len() ==> none_named(#[trigger] lists[j], name),
    ensures
        none_named(chained(lists), name),
    decreases lists.len(),
{
    if lists.len() > 0 {
        let t = lists.drop_last();
        assert(lists.last() == lists[lists.len() - 1]);
        assert(forall|j: int| 0 <= j < t.len() ==> #[trigger] t[j] == lists[j]);
        chained_without(t, name);
        assert(none_named(lists.last(), name));
    }
}

/// A figure whose name no other figure has is read once, under that name and the labels of all,
/// where it has a value.
pub proof fn a_figure_is_read_once(
    f: Seq<FigureView>,
    labels: Map<Seq<char>, Seq<char>>,
    k: int,
)
    requires
        0 <= k < f.len(),
        forall|j: int| 0 <= j < f.len() && j != k ==> (#[trigger] f[j]).name != f[k].name,
    ensures
        of_name(figured(f, labels), f[k].name) == only(
            f[k].name,
            f[k].value,
            labels,
            f[k].metric_type,
        ),
    decreases f.len(),
{
    reveal(Seq::filter);
    let t = f.drop_last();
    let before = figured(t, labels);
    let name = f[k].name;
    let p = |x: ReadingView| x.name == name;
    assert(f.last() == f[f.len() - 1]);
    let all = figured(f, labels);
    if f.last().value is Some {
        assert(all.drop_last() =~= before);
    }
    if k == f.len() - 1 {
        assert forall|j: int| 0 <= j < t.len() implies (#[trigger] t[j]).name != name by {
            assert(t[j] == f[j]);
        }
        other_figures(t, labels, name);
        of_name_uniform(before, name);
        assert(of_name(all, name) =~= only(name, f[k].value, labels, f[k].metric_type));
    } else {
        assert forall|j: int| 0 <= j < t.len() && j != k implies (#[trigger] t[j]).name != t[k].name by {
            assert(t[j] == f[j]);
        }
        a_figure_is_read_once(t, labels, k);
        assert(f[f.len() - 1].name != name);
    }
}

proof fn other_figures(f: Seq<FigureView>, labels: Map<Seq<char>, Seq<char>>, name: Seq<char>)
    requires
        forall|j: int| 0 <= j < f.len() ==> (#[trigger] f[j]).name != name,
    ensures
        none_named(figured(f, labels), name),
    decreases f.len(),
{
    if f.len() > 0 {
        let t = f.drop_last();
        assert(f[f.len() - 1] == f.last());
        assert forall|j: int| 0 <= j < t.len() implies (#[trigger] t[j]).name != name by {
            assert(t[j] == f[j]);
        }
        other_figures(t, labels, name);
    }
}

/// Figures are read under their own names: where none has a name, no reading has it.
pub proof fn figures_have_their_names(
    f: Seq<FigureView>,
    labels: Map<Seq<char>, Seq<char>>,
    name: Seq<char>,
)
    requires
        forall|j: int| 0 <= j < f.len() ==> (#[trigger] f[j]).name != name,
    ensures
        none_named(figured(f, labels), name),
{
    other_figures(f, labels, name);
}

/// Every figure is read with the labels that it was given.
pub proof fn figures_share_their_labels(f: Seq<FigureView>, labels: Map<Seq<char>, Seq<char>>)
    ensures
        forall|i: int|
            0 <= i < figured(f, labels).len() ==> (#[trigger] figured(f, labels)[i]).labels
                == labels,
    decreases f.len(),
{
    if f.len() > 0 {
        figures_share_their_labels(f.drop_last(), labels);
    }
}

/// A measurement has the name, the value and the kind of its reading, the time that it is given,
/// and the labels of its reading but for those that the collector gives to everything.
pub proof fn a_measurement_says_what_was_read(
    m: Metric,
    r: ReadingView,
    base: Map<Seq<char>, Seq<char>>,
    now: int,
    label: Seq<char>,
)
    requires
        measures(m, r, base, now),
    ensures
        m.name@ == r.name,
        m.value == r.value,
        m.metric_type == r.metric_type,
        m.timestamp@ == now,
        base.dom().contains(label) ==> m.labels@.dom().contains(label) && m.labels@[label]
            == base[label],
        !base.dom().contains(label) ==> (m.labels@.dom().contains(label) <==> r.labels.dom().contains(
            label,
        )),
        !base.dom().contains(label) && r.labels.dom().contains(label) ==> m.labels@[label]
            == r.labels[label],
{
}

} // verus!
