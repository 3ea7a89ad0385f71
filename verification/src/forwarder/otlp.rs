//! The OTLP request: metrics grouped by name, with their labels as attributes.
use vstd::prelude::*;

use crate::grouping;
use crate::labels::{self, Label, Labels};
use crate::ordered::{self, OrderedMap};
use crate::signal::{self, Metric, MetricType, MetricView, Value};
use crate::text;
use crate::time::{self, Timestamp};

verus! {

/// An attribute with a text as its value.
pub struct KeyValue {
    pub key: String,
    pub value: String,
}

impl View for KeyValue {
    type V = Label;

    open spec fn view(&self) -> Label {
        (self.key@, self.value@)
    }
}

/// The number of one measurement.
pub struct NumberDataPoint {
    pub attributes: Vec<KeyValue>,
    pub time_unix_nano: u64,
    pub value: Value,
}

/// What a data point says.
#[verifier::ext_equal]
pub struct PointView {
    pub attributes: Seq<Label>,
    pub time_unix_nano: nat,
    pub value: Value,
}

/// What a list of attributes says.
pub open spec fn attribute_views(a: Seq<KeyValue>) -> Seq<Label> {
    a.map_values(|x: KeyValue| x@)
}

impl View for NumberDataPoint {
    type V = PointView;

    open spec fn view(&self) -> PointView {
        PointView {
            attributes: attribute_views(self.attributes@),
            time_unix_nano: self.time_unix_nano as nat,
            value: self.value,
        }
    }
}

/// The data points of a metric: a gauge, or a sum that is cumulative and only ever grows.
pub struct OtlpMetric {
    pub name: String,
    pub metric_type: MetricType,
    pub data_points: Vec<NumberDataPoint>,
}

/// What a metric of a request says.
#[verifier::ext_equal]
pub struct OtlpMetricView {
    pub name: Seq<char>,
    pub metric_type: MetricType,
    pub data_points: Seq<PointView>,
}

/// What a list of data points says.
pub open spec fn point_views(p: Seq<NumberDataPoint>) -> Seq<PointView> {
    p.map_values(|x: NumberDataPoint| x@)
}

impl View for OtlpMetric {
    type V = OtlpMetricView;

    open spec fn view(&self) -> OtlpMetricView {
        OtlpMetricView {
            name: self.name@,
            metric_type: self.metric_type,
            data_points: point_views(self.data_points@),
        }
    }
}

/// A request: the attributes of the resource, and the metrics.
pub struct ExportRequest {
    pub resource: Labels,
    pub metrics: Vec<OtlpMetric>,
}

/// What a list of metrics of a request says.
pub open spec fn otlp_views(m: Seq<OtlpMetric>) -> Seq<OtlpMetricView> {
    m.map_values(|x: OtlpMetric| x@)
}

/// The names of the metrics of a request.
pub open spec fn otlp_names(m: Seq<OtlpMetricView>) -> Seq<Seq<char>> {
    m.map_values(|x: OtlpMetricView| x.name)
}

/// An attribute.
pub fn kv(key: &str, value: &str) -> (r: KeyValue)
    ensures
        r@ == (key@, value@),
{
    KeyValue { key: text::owned(key), value: text::owned(value) }
}

/// Labels as attributes, in their order.
pub fn labels_to_attributes(labels: &Labels) -> (r: Vec<KeyValue>)
    ensures
        attribute_views(r@) == labels.listing(),
{
    let n: usize = labels.len();
    let mut out: Vec<KeyValue> = Vec::new();
    let mut i: usize = 0;
    while i < n
        invariant
            i <= n,
            n == labels.listing().len(),
            out@.len() == i,
            forall|k: int| 0 <= k < i ==> (#[trigger] out@[k])@ == labels.listing()[k],
        decreases n - i,
    {
        out.push(kv(labels.key_at(i).as_str(), labels.value_at(i).as_str()));
        i = i + 1;
    }
    assert(attribute_views(out@) =~= labels.listing());
    out
}

/// A point in time as OTLP counts it: nanoseconds since the start of 1970, of which 64 bits
/// are sent.
pub open spec fn unix_nanos(t: int) -> nat {
    time::since_epoch(t) % 0x1_0000_0000_0000_0000
}

/// A point in time as OTLP counts it.
pub fn system_time_to_nanos(t: Timestamp) -> (n: u64)
    ensures
        n == unix_nanos(t@),
{
    if t.nanos < 0 {
        0
    } else {
        (t.nanos as u128 % 0x1_0000_0000_0000_0000) as u64
    }
}

/// The data point of a measurement, with all its labels.
pub open spec fn point_of(m: MetricView) -> PointView {
    PointView {
        attributes: m.labels,
        time_unix_nano: unix_nanos(m.timestamp),
        value: m.value,
    }
}

fn point(m: &Metric) -> (p: NumberDataPoint)
    ensures
        p@ == point_of(m@),
{
    let p = NumberDataPoint {
        attributes: labels_to_attributes(&m.labels),
        time_unix_nano: system_time_to_nanos(m.timestamp),
        value: m.value,
    };
    assert(p@ =~= point_of(m@));
    p
}

/// The measurements with a name, in their order.
pub open spec fn named(m: Seq<MetricView>, name: Seq<char>) -> Seq<MetricView> {
    grouping::members(m, |x: MetricView| x.name, |x: MetricView| x, name)
}

/// The metric of a request for the measurements of a name: its kind is that of the first
/// one.
pub open spec fn series(m: Seq<MetricView>, name: Seq<char>) -> OtlpMetricView {
    OtlpMetricView {
        name,
        metric_type: named(m, name)[0].metric_type,
        data_points: named(m, name).map_values(|x: MetricView| point_of(x)),
    }
}

/// The metrics of a request: one for each name, in the order of the names, with every
/// measurement of that name.
pub open spec fn grouped(r: Seq<OtlpMetricView>, m: Seq<MetricView>) -> bool {
    &&& ordered::ascending::<String>(otlp_names(r))
    &&& forall|name: Seq<char>|
        #![trigger otlp_names(r).contains(name)]
        otlp_names(r).contains(name) <==> named(m, name).len() > 0
    &&& forall|i: int| 0 <= i < r.len() ==> #[trigger] r[i] == series(m, r[i].name)
}

/// The groups say what was measured.
spec fn groups_hold(g: Map<Seq<char>, Seq<Metric>>, m: Seq<MetricView>) -> bool {
    forall|name: Seq<char>|
        #![trigger g.dom().contains(name)]
        #![trigger named(m, name)]
        (g.dom().contains(name) <==> named(m, name).len() > 0) && signal::metric_views(
            ordered::group(g, name),
        ) == named(m, name)
}

fn group_by_name(metrics: &Vec<Metric>) -> (g: OrderedMap<String, Vec<Metric>>)
    ensures
        groups_hold(g@, signal::metric_views(metrics@)),
{
    let ghost all = signal::metric_views(metrics@);
    let mut g: OrderedMap<String, Vec<Metric>> = OrderedMap::new();
    let mut i: usize = 0;
    proof {
        assert forall|name: Seq<char>| signal::metric_views(
            #[trigger] ordered::group(g@, name),
        ) =~= named(all.take(0), name) by {}
    }
    while i < metrics.len()
        invariant
            i <= metrics@.len(),
            all == signal::metric_views(metrics@),
            groups_hold(g@, all.take(i as int)),
        decreases metrics@.len() - i,
    {
        let ghost before = g@;
        let ghost m = all.take(i as int);
        let ghost n = all.take(i + 1);
        let copy = metrics[i].clone();
        let ghost name = copy@.name;
        assert(n.drop_last() =~= m);
        assert(n.last() == metrics@[i as int]@);
        assert(n.last() == copy@);
        g.push((*metrics[i].name).clone(), copy);
        proof {
            let had = ordered::group(before, name);
            assert(signal::metric_views(had) == named(m, name)) by {
                assert(before.dom().contains(name) || !before.dom().contains(name));
            }
            assert(signal::metric_views(had.push(copy)) =~= signal::metric_views(had).push(copy@));
            assert forall|k: Seq<char>|
                (g@.dom().contains(k) <==> named(n, k).len() > 0) && signal::metric_views(
                    ordered::group(g@, k),
                ) == named(n, k) by {
                assert(before.dom().contains(k) || !before.dom().contains(k));
                if k != name {
                    assert(ordered::group(g@, k) == ordered::group(before, k));
                }
            }
        }
        i = i + 1;
    }
    assert(all.take(i as int) =~= all);
    g
}

fn points(group: &Vec<Metric>) -> (r: Vec<NumberDataPoint>)
    ensures
        point_views(r@) == signal::metric_views(group@).map_values(|x: MetricView| point_of(x)),
{
    let mut out: Vec<NumberDataPoint> = Vec::new();
    let mut i: usize = 0;
    while i < group.len()
        invariant
            i <= group@.len(),
            out@.len() == i,
            forall|k: int| 0 <= k < i ==> (#[trigger] out@[k])@ == point_of(group@[k]@),
        decreases group@.len() - i,
    {
        out.push(point(&group[i]));
        i = i + 1;
    }
    assert(point_views(out@) =~= signal::metric_views(group@).map_values(
        |x: MetricView| point_of(x),
    ));
    out
}

/// The request for some measurements. The resource has the attributes that are configured, and
/// no others.
pub fn metrics_to_otlp(metrics: &Vec<Metric>, configured: &Labels) -> (r: ExportRequest)
    ensures
        r.resource@ == configured@,
        grouped(otlp_views(r.metrics@), signal::metric_views(metrics@)),
{
    let ghost all = signal::metric_views(metrics@);
    let resource = labels::copied(configured);
    let by_name = group_by_name(metrics);
    let ghost g = by_name@;
    let n: usize = by_name.len();
    let ghost l = by_name.listing();
    proof {
        ordered::ascending_distinct::<String, Seq<Metric>>(l);
    }
    let mut out: Vec<OtlpMetric> = Vec::new();
    let mut i: usize = 0;
    while i < n
        invariant
            i <= n,
            n == l.len(),
            l == by_name.listing(),
            g == by_name@,
            groups_hold(g, all),
            forall|x: int, y: int|
                0 <= x < l.len() && 0 <= y < l.len() && (#[trigger] l[x]).0 == (#[trigger] l[y]).0
                    ==> x == y,
            out@.len() == i,
            forall|k: int|
                0 <= k < i ==> (#[trigger] out@[k])@ == series(all, l[k].0),
        decreases n - i,
    {
        let group = by_name.value_at(i);
        let ghost name = l[i as int].0;
        proof {
            assert(ordered::has_key(l, name));
            assert(ordered::key_index(l, name) == i) by {
                let k = ordered::key_index(l, name);
                assert(l[k].0 == l[i as int].0);
            }
            assert(g.dom().contains(name));
            assert(ordered::group(g, name) == group@);
            assert(signal::metric_views(group@) == named(all, name));
            assert(signal::metric_views(group@)[0] == group@[0]@);
        }
        let m = OtlpMetric {
            name: by_name.key_at(i).clone(),
            metric_type: group[0].metric_type,
            data_points: points(group),
        };
        assert(m@ =~= series(all, name));
        out.push(m);
        i = i + 1;
    }
    proof {
        let views = otlp_views(out@);
        assert(otlp_names(views) =~= ordered::firsts(l)) by {
            assert forall|k: int| 0 <= k < n implies otlp_names(views)[k] == ordered::firsts(l)[k] by {
                assert(views[k] == out@[k]@);
            }
        }
        assert forall|name: Seq<char>| #[trigger] otlp_names(views).contains(name) <==> named(
            all,
            name,
        ).len() > 0 by {
            assert(g.dom().contains(name) <==> named(all, name).len() > 0);
            if otlp_names(views).contains(name) {
                let k = choose|k: int| 0 <= k < l.len() && ordered::firsts(l)[k] == name;
                assert(l[k].0 == name);
                assert(ordered::has_key(l, name));
            }
            if ordered::has_key(l, name) {
                let k = ordered::key_index(l, name);
                assert(ordered::firsts(l)[k] == name);
            }
        }
        assert forall|k: int| 0 <= k < views.len() implies #[trigger] views[k] == series(
            all,
            views[k].name,
        ) by {
            assert(views[k] == out@[k]@);
        }
    }
    ExportRequest { resource, metrics: out }
}

// Laws

/// How many data points a request has.
pub open spec fn point_count(r: Seq<OtlpMetricView>) -> nat {
    grouping::total(r.map_values(|x: OtlpMetricView| x.data_points.len()))
}

/// Every measurement is in the request, under its name, and the request has as many data
/// points as there are measurements: none is lost, and none is sent twice.
pub proof fn every_measurement_is_sent(r: Seq<OtlpMetricView>, m: Seq<MetricView>)
    requires
        grouped(r, m),
    ensures
        point_count(r) == m.len(),
        forall|i: int|
            0 <= i < m.len() ==> exists|k: int|
                0 <= k < r.len() && (#[trigger] r[k]).name == (#[trigger] m[i]).name
                    && r[k].data_points.contains(point_of(m[i])),
{
    let names = otlp_names(r);
    let key = |x: MetricView| x.name;
    let image = |x: MetricView| x;
    assert(names.no_duplicates()) by {
        assert forall|i: int, j: int|
            0 <= i < names.len() && 0 <= j < names.len() && i != j implies names[i] != names[j] by {
            text::text_order_equal(names[i], names[j]);
            text::text_order_equal(names[j], names[i]);
        }
    }
    assert forall|i: int| 0 <= i < m.len() implies names.contains((#[trigger] m[i]).name) by {
        grouping::item_is_member(m, key, image, i);
        assert(names.contains(m[i].name) <==> named(m, m[i].name).len() > 0);
    }
    grouping::groups_hold_every_item(m, key, image, names);
    assert forall|i: int| 0 <= i < r.len() implies (#[trigger] r[i]).data_points.len() == named(
        m,
        names[i],
    ).len() by {
        assert(r[i] == series(m, r[i].name));
    }
    assert(r.map_values(|x: OtlpMetricView| x.data_points.len()) =~= grouping::group_sizes(
        m,
        key,
        image,
        names,
    ));
    assert forall|i: int| 0 <= i < m.len() implies exists|k: int|
        0 <= k < r.len() && (#[trigger] r[k]).name == (#[trigger] m[i]).name
            && r[k].data_points.contains(point_of(m[i])) by {
        grouping::item_is_member(m, key, image, i);
        assert(names.contains(m[i].name));
        let k = choose|k: int| 0 <= k < names.len() && names[k] == m[i].name;
        let group = named(m, m[i].name);
        let j = choose|j: int| 0 <= j < group.len() && group[j] == m[i];
        assert(r[k] == series(m, r[k].name));
        assert(r[k].data_points[j] == point_of(m[i]));
    }
}

/// A data point has the time of its measurement, to the nanosecond, for every time since 1970
/// that 64 bits count; later measurements have later data points. It has the value and all the
/// labels of the measurement.
pub proof fn points_keep_their_time(a: MetricView, b: MetricView)
    ensures
        0 <= a.timestamp <= u64::MAX ==> point_of(a).time_unix_nano == a.timestamp,
        a.timestamp < 0 ==> point_of(a).time_unix_nano == 0,
        0 <= a.timestamp < b.timestamp <= u64::MAX ==> point_of(a).time_unix_nano < point_of(
            b,
        ).time_unix_nano,
        point_of(a).value == a.value,
        point_of(a).attributes == a.labels,
{
}

/// In the request, every measurement has a data point under its name with its own time, value
/// and labels.
pub proof fn a_measurement_is_sent_as_it_is(r: Seq<OtlpMetricView>, m: Seq<MetricView>, i: int)
    requires
        grouped(r, m),
        0 <= i < m.len(),
        0 <= m[i].timestamp <= u64::MAX,
    ensures
        exists|k: int, j: int|
            #![trigger r[k].data_points[j]]
            0 <= k < r.len() && 0 <= j < r[k].data_points.len() && r[k].name == m[i].name
                && r[k].data_points[j].time_unix_nano == m[i].timestamp
                && r[k].data_points[j].value == m[i].value && r[k].data_points[j].attributes
                == m[i].labels,
{
    every_measurement_is_sent(r, m);
    let k = choose|k: int|
        0 <= k < r.len() && (#[trigger] r[k]).name == m[i].name && r[k].data_points.contains(
            point_of(m[i]),
        );
    let p = point_of(m[i]);
    let j = choose|j: int| 0 <= j < r[k].data_points.len() && r[k].data_points[j] == p;
    points_keep_their_time(m[i], m[i]);
    assert(r[k].data_points[j] == p);
}

/// A metric of the request is a counter or a gauge as its measurements are, where they agree.
pub proof fn a_metric_has_the_kind_of_its_measurements(
    r: Seq<OtlpMetricView>,
    m: Seq<MetricView>,
    k: int,
    kind: MetricType,
)
    requires
        grouped(r, m),
        0 <= k < r.len(),
        forall|i: int| 0 <= i < m.len() && (#[trigger] m[i]).name == r[k].name ==> m[i].metric_type
            == kind,
    ensures
        r[k].metric_type == kind,
{
    assert(otlp_names(r)[k] == r[k].name);
    assert(otlp_names(r).contains(r[k].name));
    assert(named(m, r[k].name).len() > 0);
    first_named_is_one(m, r[k].name);
    assert(r[k] == series(m, r[k].name));
}

proof fn first_named_is_one(m: Seq<MetricView>, name: Seq<char>)
    requires
        named(m, name).len() > 0,
    ensures
        exists|i: int| 0 <= i < m.len() && (#[trigger] m[i]) == named(m, name)[0] && m[i].name == name,
    decreases m.len(),
{
    let t = m.drop_last();
    let before = named(t, name);
    assert(m[m.len() - 1] == m.last());
    if before.len() > 0 {
        first_named_is_one(t, name);
        let i = choose|i: int| 0 <= i < t.len() && (#[trigger] t[i]) == before[0] && t[i].name == name;
        assert(m[i] == t[i]);
        assert(named(m, name)[0] == before[0]);
    } else {
        assert(m.last().name == name);
        assert(named(m, name)[0] == m.last());
    }
}

/// The points of a metric are the measurements of its name in the order in which they were made,
/// and those of other names are not among them.
pub proof fn points_keep_the_order_of_the_measurements(
    m: Seq<MetricView>,
    x: MetricView,
    name: Seq<char>,
)
    ensures
        named(Seq::empty(), name).len() == 0,
        x.name == name ==> named(m.push(x), name) == named(m, name).push(x),
        x.name != name ==> named(m.push(x), name) == named(m, name),
        x.name == name ==> series(m.push(x), name).data_points == series(m, name).data_points.push(
            point_of(x),
        ),
        series(m, name).name == name,
{
    assert(m.push(x).drop_last() =~= m);
    if x.name == name {
        assert(series(m.push(x), name).data_points =~= series(m, name).data_points.push(
            point_of(x),
        ));
    }
}

/// The metrics of a request are in the order of their names.
pub proof fn metrics_are_ordered_by_their_names(r: Seq<OtlpMetricView>, m: Seq<MetricView>, i: int, j: int)
    requires
        grouped(r, m),
        0 <= i < j < r.len(),
    ensures
        text::text_order(r[i].name, r[j].name) == text::Order::Less,
{
    let names = otlp_names(r);
    assert(names[i] == r[i].name && names[j] == r[j].name);
}

} // verus!
