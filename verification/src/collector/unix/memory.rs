//! Memory.
use vstd::prelude::*;

use crate::collector::reading::{self, Figure, FigureView, Reading};
use crate::collector::unix::disk;
use crate::labels::Labels;
use crate::ordered::OrderedMap;
use crate::signal::{MetricType, Value};

verus! {

/// How much memory there is of each kind, in bytes. Some kinds are not counted by every
/// kernel.
pub struct MemoryStat {
    pub mem_total: u64,
    pub mem_free: u64,
    pub mem_available: Option<u64>,
    pub buffers: u64,
    pub cached: u64,
    pub dirty: u64,
    pub swap_total: u64,
    pub swap_free: u64,
    pub swap_cached: u64,
    pub shmem: Option<u64>,
    pub s_reclaimable: Option<u64>,
    pub s_unreclaim: Option<u64>,
}

/// The figures of the memory.
pub open spec fn memory_figures(m: MemoryStat) -> Seq<FigureView> {
    seq![
        reading::gauge_figure_view("node_memory_MemTotal_bytes"@, Some(Value::Whole(m.mem_total))),
        reading::gauge_figure_view("node_memory_MemFree_bytes"@, Some(Value::Whole(m.mem_free))),
        reading::gauge_figure_view("node_memory_MemAvailable_bytes"@, disk::count(m.mem_available)),
        reading::gauge_figure_view("node_memory_Buffers_bytes"@, Some(Value::Whole(m.buffers))),
        reading::gauge_figure_view("node_memory_Cached_bytes"@, Some(Value::Whole(m.cached))),
        reading::gauge_figure_view("node_memory_Dirty_bytes"@, Some(Value::Whole(m.dirty))),
        reading::gauge_figure_view("node_memory_SwapTotal_bytes"@, Some(Value::Whole(m.swap_total))),
        reading::gauge_figure_view("node_memory_SwapFree_bytes"@, Some(Value::Whole(m.swap_free))),
        reading::gauge_figure_view("node_memory_SwapCached_bytes"@, Some(Value::Whole(m.swap_cached))),
        reading::gauge_figure_view("node_memory_Shmem_bytes"@, disk::count(m.shmem)),
        reading::gauge_figure_view("node_memory_SReclaimable_bytes"@, disk::count(m.s_reclaimable)),
        reading::gauge_figure_view("node_memory_SUnreclaim_bytes"@, disk::count(m.s_unreclaim)),
    ]
}

/// The readings of the memory. They have no labels of their own, and a kind that is not
/// counted has no reading.
pub fn collect(m: &MemoryStat) -> (r: Vec<Reading>)
    ensures
        reading::reading_views(r@) == reading::figured(
            memory_figures(*m),
            Map::<Seq<char>, Seq<char>>::empty(),
        ),
{
    let f: Vec<Figure> = vec![
        reading::gauge_figure("node_memory_MemTotal_bytes", Some(Value::Whole(m.mem_total))),
        reading::gauge_figure("node_memory_MemFree_bytes", Some(Value::Whole(m.mem_free))),
        reading::gauge_figure("node_memory_MemAvailable_bytes", disk::count_of(m.mem_available)),
        reading::gauge_figure("node_memory_Buffers_bytes", Some(Value::Whole(m.buffers))),
        reading::gauge_figure("node_memory_Cached_bytes", Some(Value::Whole(m.cached))),
        reading::gauge_figure("node_memory_Dirty_bytes", Some(Value::Whole(m.dirty))),
        reading::gauge_figure("node_memory_SwapTotal_bytes", Some(Value::Whole(m.swap_total))),
        reading::gauge_figure("node_memory_SwapFree_bytes", Some(Value::Whole(m.swap_free))),
        reading::gauge_figure("node_memory_SwapCached_bytes", Some(Value::Whole(m.swap_cached))),
        reading::gauge_figure("node_memory_Shmem_bytes", disk::count_of(m.shmem)),
        reading::gauge_figure("node_memory_SReclaimable_bytes", disk::count_of(m.s_reclaimable)),
        reading::gauge_figure("node_memory_SUnreclaim_bytes", disk::count_of(m.s_unreclaim)),
    ];
    assert(reading::figure_views(f@) =~= memory_figures(*m));
    let l: Labels = OrderedMap::new();
    reading::figures(&f, &l)
}

// Laws

/// Every kind of memory is reported once, in bytes and under its own name; a kind that is not
/// counted is not reported.
pub proof fn every_kind_is_reported_under_its_name(m: MemoryStat)
    ensures
        reading::of_name(reading::figured(memory_figures(m), Map::<Seq<char>, Seq<char>>::empty()), "node_memory_MemTotal_bytes"@) == reading::only(
            "node_memory_MemTotal_bytes"@,
            Some(Value::Whole(m.mem_total)),
            Map::<Seq<char>, Seq<char>>::empty(),
            MetricType::Gauge,
        ),
        reading::of_name(reading::figured(memory_figures(m), Map::<Seq<char>, Seq<char>>::empty()), "node_memory_MemFree_bytes"@) == reading::only(
            "node_memory_MemFree_bytes"@,
            Some(Value::Whole(m.mem_free)),
            Map::<Seq<char>, Seq<char>>::empty(),
            MetricType::Gauge,
        ),
        reading::of_name(reading::figured(memory_figures(m), Map::<Seq<char>, Seq<char>>::empty()), "node_memory_MemAvailable_bytes"@) == reading::only(
            "node_memory_MemAvailable_bytes"@,
            match m.mem_available {
                Some(n) => Some(Value::Whole(n)),
                None => None,
            },
            Map::<Seq<char>, Seq<char>>::empty(),
            MetricType::Gauge,
        ),
        reading::of_name(reading::figured(memory_figures(m), Map::<Seq<char>, Seq<char>>::empty()), "node_memory_Buffers_bytes"@) == reading::only(
            "node_memory_Buffers_bytes"@,
            Some(Value::Whole(m.buffers)),
            Map::<Seq<char>, Seq<char>>::empty(),
            MetricType::Gauge,
        ),
        reading::of_name(reading::figured(memory_figures(m), Map::<Seq<char>, Seq<char>>::empty()), "node_memory_Cached_bytes"@) == reading::only(
            "node_memory_Cached_bytes"@,
            Some(Value::Whole(m.cached)),
            Map::<Seq<char>, Seq<char>>::empty(),
            MetricType::Gauge,
        ),
        reading::of_name(reading::figured(memory_figures(m), Map::<Seq<char>, Seq<char>>::empty()), "node_memory_Dirty_bytes"@) == reading::only(
            "node_memory_Dirty_bytes"@,
            Some(Value::Whole(m.dirty)),
            Map::<Seq<char>, Seq<char>>::empty(),
            MetricType::Gauge,
        ),
        reading::of_name(reading::figured(memory_figures(m), Map::<Seq<char>, Seq<char>>::empty()), "node_memory_SwapTotal_bytes"@) == reading::only(
            "node_memory_SwapTotal_bytes"@,
            Some(Value::Whole(m.swap_total)),
            Map::<Seq<char>, Seq<char>>::empty(),
            MetricType::Gauge,
        ),
        reading::of_name(reading::figured(memory_figures(m), Map::<Seq<char>, Seq<char>>::empty()), "node_memory_SwapFree_bytes"@) == reading::only(
            "node_memory_SwapFree_bytes"@,
            Some(Value::Whole(m.swap_free)),
            Map::<Seq<char>, Seq<char>>::empty(),
            MetricType::Gauge,
        ),
        reading::of_name(reading::figured(memory_figures(m), Map::<Seq<char>, Seq<char>>::empty()), "node_memory_SwapCached_bytes"@) == reading::only(
            "node_memory_SwapCached_bytes"@,
            Some(Value::Whole(m.swap_cached)),
            Map::<Seq<char>, Seq<char>>::empty(),
            MetricType::Gauge,
        ),
        reading::of_name(reading::figured(memory_figures(m), Map::<Seq<char>, Seq<char>>::empty()), "node_memory_Shmem_bytes"@) == reading::only(
            "node_memory_Shmem_bytes"@,
            match m.shmem {
                Some(n) => Some(Value::Whole(n)),
                None => None,
            },
            Map::<Seq<char>, Seq<char>>::empty(),
            MetricType::Gauge,
        ),
        reading::of_name(reading::figured(memory_figures(m), Map::<Seq<char>, Seq<char>>::empty()), "node_memory_SReclaimable_bytes"@) == reading::only(
            "node_memory_SReclaimable_bytes"@,
            match m.s_reclaimable {
                Some(n) => Some(Value::Whole(n)),
                None => None,
            },
            Map::<Seq<char>, Seq<char>>::empty(),
            MetricType::Gauge,
        ),
        reading::of_name(reading::figured(memory_figures(m), Map::<Seq<char>, Seq<char>>::empty()), "node_memory_SUnreclaim_bytes"@) == reading::only(
            "node_memory_SUnreclaim_bytes"@,
            match m.s_unreclaim {
                Some(n) => Some(Value::Whole(n)),
                None => None,
            },
            Map::<Seq<char>, Seq<char>>::empty(),
            MetricType::Gauge,
        ),
{
    let f = memory_figures(m);
    let labels = Map::<Seq<char>, Seq<char>>::empty();
    reveal_strlit("node_memory_MemTotal_bytes");
    reveal_strlit("node_memory_MemFree_bytes");
    reveal_strlit("node_memory_MemAvailable_bytes");
    reveal_strlit("node_memory_Buffers_bytes");
    reveal_strlit("node_memory_Cached_bytes");
    reveal_strlit("node_memory_Dirty_bytes");
    reveal_strlit("node_memory_SwapTotal_bytes");
    reveal_strlit("node_memory_SwapFree_bytes");
    reveal_strlit("node_memory_SwapCached_bytes");
    reveal_strlit("node_memory_Shmem_bytes");
    reveal_strlit("node_memory_SReclaimable_bytes");
    reveal_strlit("node_memory_SUnreclaim_bytes");
    assert("node_memory_MemTotal_bytes"@[12] == 'M');
    assert("node_memory_SwapFree_bytes"@[12] == 'S');
    assert("node_memory_MemFree_bytes"@[12] == 'M');
    assert("node_memory_Buffers_bytes"@[12] == 'B');
    assert("node_memory_MemAvailable_bytes"@[12] == 'M');
    assert("node_memory_SReclaimable_bytes"@[12] == 'S');
    assert("node_memory_Dirty_bytes"@[12] == 'D');
    assert("node_memory_Shmem_bytes"@[12] == 'S');
    assert("node_memory_SwapCached_bytes"@[13] == 'w');
    assert("node_memory_SUnreclaim_bytes"@[13] == 'U');
    assert(f[0].name == "node_memory_MemTotal_bytes"@);
    assert(f[1].name == "node_memory_MemFree_bytes"@);
    assert(f[2].name == "node_memory_MemAvailable_bytes"@);
    assert(f[3].name == "node_memory_Buffers_bytes"@);
    assert(f[4].name == "node_memory_Cached_bytes"@);
    assert(f[5].name == "node_memory_Dirty_bytes"@);
    assert(f[6].name == "node_memory_SwapTotal_bytes"@);
    assert(f[7].name == "node_memory_SwapFree_bytes"@);
    assert(f[8].name == "node_memory_SwapCached_bytes"@);
    assert(f[9].name == "node_memory_Shmem_bytes"@);
    assert(f[10].name == "node_memory_SReclaimable_bytes"@);
    assert(f[11].name == "node_memory_SUnreclaim_bytes"@);
    assert(f.len() == 12);
    reading::a_figure_is_read_once(f, labels, 0);
    reading::a_figure_is_read_once(f, labels, 1);
    reading::a_figure_is_read_once(f, labels, 2);
    reading::a_figure_is_read_once(f, labels, 3);
    reading::a_figure_is_read_once(f, labels, 4);
    reading::a_figure_is_read_once(f, labels, 5);
    reading::a_figure_is_read_once(f, labels, 6);
    reading::a_figure_is_read_once(f, labels, 7);
    reading::a_figure_is_read_once(f, labels, 8);
    reading::a_figure_is_read_once(f, labels, 9);
    reading::a_figure_is_read_once(f, labels, 10);
    reading::a_figure_is_read_once(f, labels, 11);
}

} // verus!
