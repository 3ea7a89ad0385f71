//! Block devices: what they read, wrote, discarded and flushed.
use vstd::prelude::*;

use crate::collector::reading::{self, Figure, FigureView, Reading, ReadingView};
use crate::labels;
use crate::pattern;
use crate::signal::{MetricType, Value};

verus! {

/// The counters of a device. Times are in milliseconds, sectors have 512 bytes. Older
/// kernels do not count discards and flushes.
pub struct DiskStat {
    pub name: String,
    pub reads: u64,
    pub sectors_read: u64,
    pub time_reading: u64,
    pub writes: u64,
    pub sectors_written: u64,
    pub time_writing: u64,
    pub in_progress: u64,
    pub time_in_progress: u64,
    pub discards: Option<u64>,
    pub sectors_discarded: Option<u64>,
    pub time_discarding: Option<u64>,
    pub flushes: Option<u64>,
    pub time_flushing: Option<u64>,
}

/// A count that may be missing, as a value.
pub open spec fn count(n: Option<u64>) -> Option<Value> {
    match n {
        Some(n) => Some(Value::Whole(n)),
        None => None,
    }
}

/// A number of sectors, in bytes.
pub open spec fn sectors(n: u64) -> Option<Value> {
    Some(Value::Product { left: n, right: 512 })
}

/// A number of milliseconds, in seconds.
pub open spec fn millis(n: u64) -> Option<Value> {
    Some(Value::Ratio { num: n, den: 1000 })
}

/// A number of milliseconds that may be missing, in seconds.
pub open spec fn millis_if(n: Option<u64>) -> Option<Value> {
    match n {
        Some(n) => millis(n),
        None => None,
    }
}

/// A count that may be missing, as a value.
pub fn count_of(n: Option<u64>) -> (r: Option<Value>)
    ensures
        r == count(n),
{
    match n {
        Some(n) => Some(Value::Whole(n)),
        None => None,
    }
}

fn millis_of(n: Option<u64>) -> (r: Option<Value>)
    ensures
        r == millis_if(n),
{
    match n {
        Some(n) => Some(Value::Ratio { num: n, den: 1000 }),
        None => None,
    }
}

/// The figures of a device.
pub open spec fn disk_figures(d: DiskStat) -> Seq<FigureView> {
    seq![
        reading::counter_figure_view("node_disk_reads_completed_total"@, Some(Value::Whole(d.reads))),
        reading::counter_figure_view("node_disk_read_bytes_total"@, sectors(d.sectors_read)),
        reading::counter_figure_view("node_disk_read_time_seconds_total"@, millis(d.time_reading)),
        reading::counter_figure_view(
            "node_disk_writes_completed_total"@,
            Some(Value::Whole(d.writes)),
        ),
        reading::counter_figure_view("node_disk_written_bytes_total"@, sectors(d.sectors_written)),
        reading::counter_figure_view("node_disk_write_time_seconds_total"@, millis(d.time_writing)),
        reading::gauge_figure_view("node_disk_io_now"@, Some(Value::Whole(d.in_progress))),
        reading::counter_figure_view("node_disk_io_time_seconds_total"@, millis(d.time_in_progress)),
        reading::counter_figure_view("node_disk_discards_completed_total"@, count(d.discards)),
        reading::counter_figure_view(
            "node_disk_discarded_sectors_total"@,
            count(d.sectors_discarded),
        ),
        reading::counter_figure_view(
            "node_disk_discard_time_seconds_total"@,
            millis_if(d.time_discarding),
        ),
        reading::counter_figure_view("node_disk_flush_requests_total"@, count(d.flushes)),
        reading::counter_figure_view(
            "node_disk_flush_requests_time_seconds_total"@,
            millis_if(d.time_flushing),
        ),
    ]
}

fn figures_of(d: &DiskStat) -> (r: Vec<Figure>)
    ensures
        reading::figure_views(r@) == disk_figures(*d),
{
    let r: Vec<Figure> = vec![
        reading::counter_figure("node_disk_reads_completed_total", Some(Value::Whole(d.reads))),
        reading::counter_figure(
            "node_disk_read_bytes_total",
            Some(Value::Product { left: d.sectors_read, right: 512 }),
        ),
        reading::counter_figure(
            "node_disk_read_time_seconds_total",
            millis_of(Some(d.time_reading)),
        ),
        reading::counter_figure("node_disk_writes_completed_total", Some(Value::Whole(d.writes))),
        reading::counter_figure(
            "node_disk_written_bytes_total",
            Some(Value::Product { left: d.sectors_written, right: 512 }),
        ),
        reading::counter_figure(
            "node_disk_write_time_seconds_total",
            millis_of(Some(d.time_writing)),
        ),
        reading::gauge_figure("node_disk_io_now", Some(Value::Whole(d.in_progress))),
        reading::counter_figure(
            "node_disk_io_time_seconds_total",
            millis_of(Some(d.time_in_progress)),
        ),
        reading::counter_figure("node_disk_discards_completed_total", count_of(d.discards)),
        reading::counter_figure("node_disk_discarded_sectors_total", count_of(d.sectors_discarded)),
        reading::counter_figure(
            "node_disk_discard_time_seconds_total",
            millis_of(d.time_discarding),
        ),
        reading::counter_figure("node_disk_flush_requests_total", count_of(d.flushes)),
        reading::counter_figure(
            "node_disk_flush_requests_time_seconds_total",
            millis_of(d.time_flushing),
        ),
    ];
    assert(reading::figure_views(r@) =~= disk_figures(*d));
    r
}

/// The readings of one device.
pub open spec fn disk_readings(d: DiskStat) -> Seq<ReadingView> {
    reading::figured(disk_figures(d), Map::empty().insert("device"@, d.name@))
}

/// The readings of one device, which the filter matches.
pub fn collect_disk(d: &DiskStat) -> (r: Vec<Reading>)
    ensures
        reading::reading_views(r@) == disk_readings(*d),
{
    let l = labels::one_label("device", d.name.as_str());
    let f = figures_of(d);
    reading::figures(&f, &l)
}

/// The readings of some devices, one device after the other, of those that the filter
/// matches.
pub open spec fn disks_readings(disks: Seq<DiskStat>, filter: Set<Seq<char>>) -> Seq<ReadingView>
    decreases disks.len(),
{
    if disks.len() == 0 {
        Seq::empty()
    } else {
        let before = disks_readings(disks.drop_last(), filter);
        let d = disks.last();
        if filter.contains(d.name@) {
            before + disk_readings(d)
        } else {
            before
        }
    }
}

/// The readings of the devices that the filter matches.
pub fn collect(disks: &Vec<DiskStat>, filter: &regex::Regex) -> (r: Vec<Reading>)
    ensures
        reading::reading_views(r@) == disks_readings(disks@, pattern::language(*filter)),
{
    let mut out: Vec<Reading> = Vec::new();
    let mut i: usize = 0;
    assert(reading::reading_views(out@) =~= Seq::empty());
    while i < disks.len()
        invariant
            i <= disks@.len(),
            reading::reading_views(out@) == disks_readings(
                disks@.take(i as int),
                pattern::language(*filter),
            ),
        decreases disks@.len() - i,
    {
        assert(disks@.take(i + 1).drop_last() =~= disks@.take(i as int));
        assert(disks@.take(i + 1).last() == disks@[i as int]);
        let d = &disks[i];
        if pattern::is_match(filter, d.name.as_str()) {
            let mut more = collect_disk(d);
            reading::append(&mut out, &mut more);
        }
        i = i + 1;
    }
    assert(disks@.take(i as int) =~= disks@);
    out
}

// Laws

/// Every counter of a device is reported once, under its own name, and with the device as its
/// label: reads as reads, sectors in bytes, milliseconds in seconds. What the kernel does not
/// count is not reported.
pub proof fn every_counter_is_reported_under_its_name(d: DiskStat)
    ensures
        reading::of_name(disk_readings(d), "node_disk_reads_completed_total"@) == reading::only(
            "node_disk_reads_completed_total"@,
            Some(Value::Whole(d.reads)),
            Map::empty().insert("device"@, d.name@),
            MetricType::Counter,
        ),
        reading::of_name(disk_readings(d), "node_disk_read_bytes_total"@) == reading::only(
            "node_disk_read_bytes_total"@,
            Some(Value::Product { left: d.sectors_read, right: 512 }),
            Map::empty().insert("device"@, d.name@),
            MetricType::Counter,
        ),
        reading::of_name(disk_readings(d), "node_disk_read_time_seconds_total"@) == reading::only(
            "node_disk_read_time_seconds_total"@,
            Some(Value::Ratio { num: d.time_reading, den: 1000 }),
            Map::empty().insert("device"@, d.name@),
            MetricType::Counter,
        ),
        reading::of_name(disk_readings(d), "node_disk_writes_completed_total"@) == reading::only(
            "node_disk_writes_completed_total"@,
            Some(Value::Whole(d.writes)),
            Map::empty().insert("device"@, d.name@),
            MetricType::Counter,
        ),
        reading::of_name(disk_readings(d), "node_disk_written_bytes_total"@) == reading::only(
            "node_disk_written_bytes_total"@,
            Some(Value::Product { left: d.sectors_written, right: 512 }),
            Map::empty().insert("device"@, d.name@),
            MetricType::Counter,
        ),
        reading::of_name(disk_readings(d), "node_disk_write_time_seconds_total"@) == reading::only(
            "node_disk_write_time_seconds_total"@,
            Some(Value::Ratio { num: d.time_writing, den: 1000 }),
            Map::empty().insert("device"@, d.name@),
            MetricType::Counter,
        ),
        reading::of_name(disk_readings(d), "node_disk_io_now"@) == reading::only(
            "node_disk_io_now"@,
            Some(Value::Whole(d.in_progress)),
            Map::empty().insert("device"@, d.name@),
            MetricType::Gauge,
        ),
        reading::of_name(disk_readings(d), "node_disk_io_time_seconds_total"@) == reading::only(
            "node_disk_io_time_seconds_total"@,
            Some(Value::Ratio { num: d.time_in_progress, den: 1000 }),
            Map::empty().insert("device"@, d.name@),
            MetricType::Counter,
        ),
        reading::of_name(disk_readings(d), "node_disk_discards_completed_total"@) == reading::only(
            "node_disk_discards_completed_total"@,
            match d.discards {
                Some(n) => Some(Value::Whole(n)),
                None => None,
            },
            Map::empty().insert("device"@, d.name@),
            MetricType::Counter,
        ),
        reading::of_name(disk_readings(d), "node_disk_discarded_sectors_total"@) == reading::only(
            "node_disk_discarded_sectors_total"@,
            match d.sectors_discarded {
                Some(n) => Some(Value::Whole(n)),
                None => None,
            },
            Map::empty().insert("device"@, d.name@),
            MetricType::Counter,
        ),
        reading::of_name(disk_readings(d), "node_disk_discard_time_seconds_total"@) == reading::only(
            "node_disk_discard_time_seconds_total"@,
            match d.time_discarding {
                Some(n) => Some(Value::Ratio { num: n, den: 1000 }),
                None => None,
            },
            Map::empty().insert("device"@, d.name@),
            MetricType::Counter,
        ),
        reading::of_name(disk_readings(d), "node_disk_flush_requests_total"@) == reading::only(
            "node_disk_flush_requests_total"@,
            match d.flushes {
                Some(n) => Some(Value::Whole(n)),
                None => None,
            },
            Map::empty().insert("device"@, d.name@),
            MetricType::Counter,
        ),
        reading::of_name(disk_readings(d), "node_disk_flush_requests_time_seconds_total"@) == reading::only(
            "node_disk_flush_requests_time_seconds_total"@,
            match d.time_flushing {
                Some(n) => Some(Value::Ratio { num: n, den: 1000 }),
                None => None,
            },
            Map::empty().insert("device"@, d.name@),
            MetricType::Counter,
        ),
        forall|i: int|
            0 <= i < disk_readings(d).len() ==> (#[trigger] disk_readings(d)[i]).labels
                == Map::<Seq<char>, Seq<char>>::empty().insert("device"@, d.name@),
{
    let f = disk_figures(d);
    let labels = Map::empty().insert("device"@, d.name@);
    reveal_strlit("node_disk_reads_completed_total");
    reveal_strlit("node_disk_read_bytes_total");
    reveal_strlit("node_disk_read_time_seconds_total");
    reveal_strlit("node_disk_writes_completed_total");
    reveal_strlit("node_disk_written_bytes_total");
    reveal_strlit("node_disk_write_time_seconds_total");
    reveal_strlit("node_disk_io_now");
    reveal_strlit("node_disk_io_time_seconds_total");
    reveal_strlit("node_disk_discards_completed_total");
    reveal_strlit("node_disk_discarded_sectors_total");
    reveal_strlit("node_disk_discard_time_seconds_total");
    reveal_strlit("node_disk_flush_requests_total");
    reveal_strlit("node_disk_flush_requests_time_seconds_total");
    assert("node_disk_reads_completed_total"@[10] == 'r');
    assert("node_disk_io_time_seconds_total"@[10] == 'i');
    assert("node_disk_read_time_seconds_total"@[10] == 'r');
    assert("node_disk_discarded_sectors_total"@[10] == 'd');
    assert("node_disk_write_time_seconds_total"@[10] == 'w');
    assert("node_disk_discards_completed_total"@[10] == 'd');
    assert(f[0].name == "node_disk_reads_completed_total"@);
    assert(f[1].name == "node_disk_read_bytes_total"@);
    assert(f[2].name == "node_disk_read_time_seconds_total"@);
    assert(f[3].name == "node_disk_writes_completed_total"@);
    assert(f[4].name == "node_disk_written_bytes_total"@);
    assert(f[5].name == "node_disk_write_time_seconds_total"@);
    assert(f[6].name == "node_disk_io_now"@);
    assert(f[7].name == "node_disk_io_time_seconds_total"@);
    assert(f[8].name == "node_disk_discards_completed_total"@);
    assert(f[9].name == "node_disk_discarded_sectors_total"@);
    assert(f[10].name == "node_disk_discard_time_seconds_total"@);
    assert(f[11].name == "node_disk_flush_requests_total"@);
    assert(f[12].name == "node_disk_flush_requests_time_seconds_total"@);
    assert(f.len() == 13);
    reading::a_figure_is_read_once(f, labels, 0);
    reading::a_figure_is_read_once(f, labels, 1);
    reading::a_figure_is_read_once(f, labels, 2);
    reading::a_figure_is_read_once(f, labels, 3);
    reading::a_figure_is_read_once(f, labels, 4);
    reading::a_figure_is_read_once(f, labels, 5);
    reading::a_figure_is_read_once(f, labels, 6);
    reading::a_figure_is_read_once(f, labels, 7);
    reading::a_figure_is_read_once(f, labels, 8);
    reading::a_figure_is_read_once(f, labels, 9);
    reading::a_figure_is_read_once(f, labels, 10);
    reading::a_figure_is_read_once(f, labels, 11);
    reading::a_figure_is_read_once(f, labels, 12);
    reading::figures_share_their_labels(f, labels);
}

/// A device is reported exactly where the filter matches its name: what is reported is what some
/// matching device says, and everything that it says.
pub proof fn matching_devices_are_reported(
    disks: Seq<DiskStat>,
    filter: Set<Seq<char>>,
    r: ReadingView,
)
    ensures
        disks_readings(disks, filter).contains(r) <==> exists|i: int|
            0 <= i < disks.len() && filter.contains((#[trigger] disks[i]).name@) && disk_readings(
                disks[i],
            ).contains(r),
    decreases disks.len(),
{
    if disks.len() > 0 {
        let t = disks.drop_last();
        let before = disks_readings(t, filter);
        let own = disk_readings(disks.last());
        matching_devices_are_reported(t, filter, r);
        assert(disks[disks.len() - 1] == disks.last());
        assert(forall|i: int| 0 <= i < t.len() ==> #[trigger] t[i] == disks[i]);
        reading::joined_contains(before, own, r);
        if before.contains(r) {
            let i = choose|i: int|
                0 <= i < t.len() && filter.contains((#[trigger] t[i]).name@) && disk_readings(
                    t[i],
                ).contains(r);
            assert(disks[i] == t[i]);
        }
        if exists|i: int|
            0 <= i < disks.len() && filter.contains((#[trigger] disks[i]).name@) && disk_readings(
                disks[i],
            ).contains(r) {
            let i = choose|i: int|
                0 <= i < disks.len() && filter.contains((#[trigger] disks[i]).name@)
                    && disk_readings(disks[i]).contains(r);
            if i < t.len() {
                assert(t[i] == disks[i]);
            }
        }
    }
}

} // verus!
