//! Network interfaces.
use vstd::prelude::*;

use crate::collector::reading::{self, Figure, FigureView, Reading, ReadingView};
use crate::labels;
use crate::pattern;
use crate::signal::{MetricType, Value};

verus! {

/// The counters of an interface.
pub struct NetDevice {
    pub name: String,
    pub recv_bytes: u64,
    pub recv_packets: u64,
    pub recv_errs: u64,
    pub recv_drop: u64,
    pub recv_fifo: u64,
    pub recv_frame: u64,
    pub sent_bytes: u64,
    pub sent_packets: u64,
    pub sent_errs: u64,
    pub sent_drop: u64,
    pub sent_fifo: u64,
    pub sent_colls: u64,
    pub sent_carrier: u64,
}

/// The figures of an interface.
pub open spec fn device_figures(d: NetDevice) -> Seq<FigureView> {
    seq![
        reading::counter_figure_view(
            "node_network_receive_bytes_total"@,
            Some(Value::Whole(d.recv_bytes)),
        ),
        reading::counter_figure_view(
            "node_network_receive_packets_total"@,
            Some(Value::Whole(d.recv_packets)),
        ),
        reading::counter_figure_view(
            "node_network_receive_errs_total"@,
            Some(Value::Whole(d.recv_errs)),
        ),
        reading::counter_figure_view(
            "node_network_receive_drop_total"@,
            Some(Value::Whole(d.recv_drop)),
        ),
        reading::counter_figure_view(
            "node_network_receive_fifo_total"@,
            Some(Value::Whole(d.recv_fifo)),
        ),
        reading::counter_figure_view(
            "node_network_receive_frame_total"@,
            Some(Value::Whole(d.recv_frame)),
        ),
        reading::counter_figure_view(
            "node_network_transmit_bytes_total"@,
            Some(Value::Whole(d.sent_bytes)),
        ),
        reading::counter_figure_view(
            "node_network_transmit_packets_total"@,
            Some(Value::Whole(d.sent_packets)),
        ),
        reading::counter_figure_view(
            "node_network_transmit_errs_total"@,
            Some(Value::Whole(d.sent_errs)),
        ),
        reading::counter_figure_view(
            "node_network_transmit_drop_total"@,
            Some(Value::Whole(d.sent_drop)),
        ),
        reading::counter_figure_view(
            "node_network_transmit_fifo_total"@,
            Some(Value::Whole(d.sent_fifo)),
        ),
        reading::counter_figure_view(
            "node_network_transmit_colls_total"@,
            Some(Value::Whole(d.sent_colls)),
        ),
        reading::counter_figure_view(
            "node_network_transmit_carrier_total"@,
            Some(Value::Whole(d.sent_carrier)),
        ),
    ]
}

fn figures_of(d: &NetDevice) -> (r: Vec<Figure>)
    ensures
        reading::figure_views(r@) == device_figures(*d),
{
    let r: Vec<Figure> = vec![
        reading::counter_figure(
            "node_network_receive_bytes_total",
            Some(Value::Whole(d.recv_bytes)),
        ),
        reading::counter_figure(
            "node_network_receive_packets_total",
            Some(Value::Whole(d.recv_packets)),
        ),
        reading::counter_figure("node_network_receive_errs_total", Some(Value::Whole(d.recv_errs))),
        reading::counter_figure("node_network_receive_drop_total", Some(Value::Whole(d.recv_drop))),
        reading::counter_figure("node_network_receive_fifo_total", Some(Value::Whole(d.recv_fifo))),
        reading::counter_figure(
            "node_network_receive_frame_total",
            Some(Value::Whole(d.recv_frame)),
        ),
        reading::counter_figure(
            "node_network_transmit_bytes_total",
            Some(Value::Whole(d.sent_bytes)),
        ),
        reading::counter_figure(
            "node_network_transmit_packets_total",
            Some(Value::Whole(d.sent_packets)),
        ),
        reading::counter_figure(
            "node_network_transmit_errs_total",
            Some(Value::Whole(d.sent_errs)),
        ),
        reading::counter_figure(
            "node_network_transmit_drop_total",
            Some(Value::Whole(d.sent_drop)),
        ),
        reading::counter_figure(
            "node_network_transmit_fifo_total",
            Some(Value::Whole(d.sent_fifo)),
        ),
        reading::counter_figure(
            "node_network_transmit_colls_total",
            Some(Value::Whole(d.sent_colls)),
        ),
        reading::counter_figure(
            "node_network_transmit_carrier_total",
            Some(Value::Whole(d.sent_carrier)),
        ),
    ];
    assert(reading::figure_views(r@) =~= device_figures(*d));
    r
}

/// The readings of one interface.
pub open spec fn device_readings(d: NetDevice) -> Seq<ReadingView> {
    reading::figured(device_figures(d), Map::empty().insert("device"@, d.name@))
}

/// The readings of one interface, which the filter matches.
pub fn collect_device(d: &NetDevice) -> (r: Vec<Reading>)
    ensures
        reading::reading_views(r@) == device_readings(*d),
{
    let l = labels::one_label("device", d.name.as_str());
    let f = figures_of(d);
    reading::figures(&f, &l)
}

/// The readings of some interfaces, one after the other, of those that the filter matches.
pub open spec fn devices_readings(devices: Seq<NetDevice>, filter: Set<Seq<char>>) -> Seq<
    ReadingView,
>
    decreases devices.len(),
{
    if devices.len() == 0 {
        Seq::empty()
    } else {
        let before = devices_readings(devices.drop_last(), filter);
        let d = devices.last();
        if filter.contains(d.name@) {
            before + device_readings(d)
        } else {
            before
        }
    }
}

/// The readings of the interfaces that the filter matches.
pub fn collect(devices: &Vec<NetDevice>, filter: &regex::Regex) -> (r: Vec<Reading>)
    ensures
        reading::reading_views(r@) == devices_readings(devices@, pattern::language(*filter)),
{
    let mut out: Vec<Reading> = Vec::new();
    let mut i: usize = 0;
    assert(reading::reading_views(out@) =~= Seq::empty());
    while i < devices.len()
        invariant
            i <= devices@.len(),
            reading::reading_views(out@) == devices_readings(
                devices@.take(i as int),
                pattern::language(*filter),
            ),
        decreases devices@.len() - i,
    {
        assert(devices@.take(i + 1).drop_last() =~= devices@.take(i as int));
        assert(devices@.take(i + 1).last() == devices@[i as int]);
        let d = &devices[i];
        if pattern::is_match(filter, d.name.as_str()) {
            let mut more = collect_device(d);
            reading::append(&mut out, &mut more);
        }
        i = i + 1;
    }
    assert(devices@.take(i as int) =~= devices@);
    out
}

// Laws

/// Every counter of an interface is reported once, under its own name, and with the interface as
/// its label: what was received as received, and what was sent as sent.
pub proof fn every_counter_is_reported_under_its_name(d: NetDevice)
    ensures
        reading::of_name(device_readings(d), "node_network_receive_bytes_total"@) == reading::only(
            "node_network_receive_bytes_total"@,
            Some(Value::Whole(d.recv_bytes)),
            Map::empty().insert("device"@, d.name@),
            MetricType::Counter,
        ),
        reading::of_name(device_readings(d), "node_network_receive_packets_total"@) == reading::only(
            "node_network_receive_packets_total"@,
            Some(Value::Whole(d.recv_packets)),
            Map::empty().insert("device"@, d.name@),
            MetricType::Counter,
        ),
        reading::of_name(device_readings(d), "node_network_receive_errs_total"@) == reading::only(
            "node_network_receive_errs_total"@,
            Some(Value::Whole(d.recv_errs)),
            Map::empty().insert("device"@, d.name@),
            MetricType::Counter,
        ),
        reading::of_name(device_readings(d), "node_network_receive_drop_total"@) == reading::only(
            "node_network_receive_drop_total"@,
            Some(Value::Whole(d.recv_drop)),
            Map::empty().insert("device"@, d.name@),
            MetricType::Counter,
        ),
        reading::of_name(device_readings(d), "node_network_receive_fifo_total"@) == reading::only(
            "node_network_receive_fifo_total"@,
            Some(Value::Whole(d.recv_fifo)),
            Map::empty().insert("device"@, d.name@),
            MetricType::Counter,
        ),
        reading::of_name(device_readings(d), "node_network_receive_frame_total"@) == reading::only(
            "node_network_receive_frame_total"@,
            Some(Value::Whole(d.recv_frame)),
            Map::empty().insert("device"@, d.name@),
            MetricType::Counter,
        ),
        reading::of_name(device_readings(d), "node_network_transmit_bytes_total"@) == reading::only(
            "node_network_transmit_bytes_total"@,
            Some(Value::Whole(d.sent_bytes)),
            Map::empty().insert("device"@, d.name@),
            MetricType::Counter,
        ),
        reading::of_name(device_readings(d), "node_network_transmit_packets_total"@) == reading::only(
            "node_network_transmit_packets_total"@,
            Some(Value::Whole(d.sent_packets)),
            Map::empty().insert("device"@, d.name@),
            MetricType::Counter,
        ),
        reading::of_name(device_readings(d), "node_network_transmit_errs_total"@) == reading::only(
            "node_network_transmit_errs_total"@,
            Some(Value::Whole(d.sent_errs)),
            Map::empty().insert("device"@, d.name@),
            MetricType::Counter,
        ),
        reading::of_name(device_readings(d), "node_network_transmit_drop_total"@) == reading::only(
            "node_network_transmit_drop_total"@,
            Some(Value::Whole(d.sent_drop)),
            Map::empty().insert("device"@, d.name@),
            MetricType::Counter,
        ),
        reading::of_name(device_readings(d), "node_network_transmit_fifo_total"@) == reading::only(
            "node_network_transmit_fifo_total"@,
            Some(Value::Whole(d.sent_fifo)),
            Map::empty().insert("device"@, d.name@),
            MetricType::Counter,
        ),
        reading::of_name(device_readings(d), "node_network_transmit_colls_total"@) == reading::only(
            "node_network_transmit_colls_total"@,
            Some(Value::Whole(d.sent_colls)),
            Map::empty().insert("device"@, d.name@),
            MetricType::Counter,
        ),
        reading::of_name(device_readings(d), "node_network_transmit_carrier_total"@) == reading::only(
            "node_network_transmit_carrier_total"@,
            Some(Value::Whole(d.sent_carrier)),
            Map::empty().insert("device"@, d.name@),
            MetricType::Counter,
        ),
        forall|i: int|
            0 <= i < device_readings(d).len() ==> (#[trigger] device_readings(d)[i]).labels
                == Map::<Seq<char>, Seq<char>>::empty().insert("device"@, d.name@),
{
    let f = device_figures(d);
    let labels = Map::empty().insert("device"@, d.name@);
    reveal_strlit("node_network_receive_bytes_total");
    reveal_strlit("node_network_receive_packets_total");
    reveal_strlit("node_network_receive_errs_total");
    reveal_strlit("node_network_receive_drop_total");
    reveal_strlit("node_network_receive_fifo_total");
    reveal_strlit("node_network_receive_frame_total");
    reveal_strlit("node_network_transmit_bytes_total");
    reveal_strlit("node_network_transmit_packets_total");
    reveal_strlit("node_network_transmit_errs_total");
    reveal_strlit("node_network_transmit_drop_total");
    reveal_strlit("node_network_transmit_fifo_total");
    reveal_strlit("node_network_transmit_colls_total");
    reveal_strlit("node_network_transmit_carrier_total");
    assert("node_network_receive_bytes_total"@[22] == 'y');
    assert("node_network_receive_frame_total"@[22] == 'r');
    assert("node_network_transmit_errs_total"@[22] == 'e');
    assert("node_network_transmit_drop_total"@[22] == 'd');
    assert("node_network_transmit_fifo_total"@[22] == 'f');
    assert("node_network_receive_errs_total"@[21] == 'e');
    assert("node_network_receive_drop_total"@[21] == 'd');
    assert("node_network_receive_fifo_total"@[21] == 'f');
    assert("node_network_transmit_bytes_total"@[22] == 'b');
    assert("node_network_transmit_colls_total"@[22] == 'c');
    assert("node_network_transmit_packets_total"@[22] == 'p');
    assert("node_network_transmit_carrier_total"@[22] == 'c');
    assert(f[0].name == "node_network_receive_bytes_total"@);
    assert(f[1].name == "node_network_receive_packets_total"@);
    assert(f[2].name == "node_network_receive_errs_total"@);
    assert(f[3].name == "node_network_receive_drop_total"@);
    assert(f[4].name == "node_network_receive_fifo_total"@);
    assert(f[5].name == "node_network_receive_frame_total"@);
    assert(f[6].name == "node_network_transmit_bytes_total"@);
    assert(f[7].name == "node_network_transmit_packets_total"@);
    assert(f[8].name == "node_network_transmit_errs_total"@);
    assert(f[9].name == "node_network_transmit_drop_total"@);
    assert(f[10].name == "node_network_transmit_fifo_total"@);
    assert(f[11].name == "node_network_transmit_colls_total"@);
    assert(f[12].name == "node_network_transmit_carrier_total"@);
    assert(f.len() == 13);
    reading::a_figure_is_read_once(f, labels, 0);
    reading::a_figure_is_read_once(f, labels, 1);
    reading::a_figure_is_read_once(f, labels, 2);
    reading::a_figure_is_read_once(f, labels, 3);
    reading::a_figure_is_read_once(f, labels, 4);
    reading::a_figure_is_read_once(f, labels, 5);
    reading::a_figure_is_read_once(f, labels, 6);
    reading::a_figure_is_read_once(f, labels, 7);
    reading::a_figure_is_read_once(f, labels, 8);
    reading::a_figure_is_read_once(f, labels, 9);
    reading::a_figure_is_read_once(f, labels, 10);
    reading::a_figure_is_read_once(f, labels, 11);
    reading::a_figure_is_read_once(f, labels, 12);
    reading::figures_share_their_labels(f, labels);
}

/// An interface is reported exactly where the filter matches its name: what is reported is what
/// some matching interface says, and everything that it says.
pub proof fn matching_interfaces_are_reported(
    devices: Seq<NetDevice>,
    filter: Set<Seq<char>>,
    r: ReadingView,
)
    ensures
        devices_readings(devices, filter).contains(r) <==> exists|i: int|
            0 <= i < devices.len() && filter.contains((#[trigger] devices[i]).name@)
                && device_readings(devices[i]).contains(r),
    decreases devices.len(),
{
    if devices.len() > 0 {
        let t = devices.drop_last();
        let before = devices_readings(t, filter);
        let own = device_readings(devices.last());
        matching_interfaces_are_reported(t, filter, r);
        assert(devices[devices.len() - 1] == devices.last());
        assert(forall|i: int| 0 <= i < t.len() ==> #[trigger] t[i] == devices[i]);
        reading::joined_contains(before, own, r);
        if before.contains(r) {
            let i = choose|i: int|
                0 <= i < t.len() && filter.contains((#[trigger] t[i]).name@) && device_readings(
                    t[i],
                ).contains(r);
            assert(devices[i] == t[i]);
        }
        if exists|i: int|
            0 <= i < devices.len() && filter.contains((#[trigger] devices[i]).name@)
                && device_readings(devices[i]).contains(r) {
            let i = choose|i: int|
                0 <= i < devices.len() && filter.contains((#[trigger] devices[i]).name@)
                    && device_readings(devices[i]).contains(r);
            if i < t.len() {
                assert(t[i] == devices[i]);
            }
        }
    }
}

} // verus!
