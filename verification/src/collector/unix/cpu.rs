//! Processors: time by mode, frequencies, governor and thermal throttling.
use vstd::prelude::*;

use crate::collector::reading::{self, Figure, FigureView, Reading, ReadingView};
use crate::collector::unix::sysfs;
use crate::labels::{self, LabelMap, Labels};
use crate::number;
use crate::signal::{MetricType, Value};
use crate::text;

verus! {

/// What a processor says, in ticks and in the contents of its files, as far as they could
/// be read. Older kernels do not count every mode.
pub struct CpuFiles {
    pub user: u64,
    pub nice: u64,
    pub system: u64,
    pub idle: u64,
    pub iowait: Option<u64>,
    pub irq: Option<u64>,
    pub softirq: Option<u64>,
    pub steal: Option<u64>,
    /// `topology/physical_package_id`
    pub package: Option<String>,
    /// `cpufreq/scaling_cur_freq`, in kilohertz, as the other frequencies
    pub scaling_cur_freq: Option<String>,
    pub scaling_min_freq: Option<String>,
    pub scaling_max_freq: Option<String>,
    pub cpuinfo_min_freq: Option<String>,
    pub cpuinfo_max_freq: Option<String>,
    pub scaling_governor: Option<String>,
    /// `thermal_throttle/core_throttle_count`
    pub core_throttle_count: Option<String>,
    pub package_throttle_count: Option<String>,
}

/// The labels of a processor.
pub open spec fn of_cpu(i: nat) -> LabelMap {
    Map::empty().insert("cpu"@, number::decimal(i))
}

/// Ticks that may not be counted: none, then.
pub open spec fn ticks(n: Option<u64>) -> u64 {
    match n {
        Some(n) => n,
        None => 0,
    }
}

fn ticks_of(n: Option<u64>) -> (r: u64)
    ensures
        r == ticks(n),
{
    match n {
        Some(n) => n,
        None => 0,
    }
}

/// The time that a processor spent in a mode, in seconds.
pub open spec fn mode_reading(i: nat, mode: Seq<char>, n: u64, tps: u64) -> ReadingView {
    reading::counter_view(
        "node_cpu_seconds_total"@,
        Value::Ratio { num: n, den: tps },
        of_cpu(i).insert("mode"@, mode),
    )
}

/// The time that a processor spent in each mode.
pub open spec fn mode_readings(i: nat, c: CpuFiles, tps: u64) -> Seq<ReadingView> {
    seq![
        mode_reading(i, "user"@, c.user, tps),
        mode_reading(i, "nice"@, c.nice, tps),
        mode_reading(i, "system"@, c.system, tps),
        mode_reading(i, "idle"@, c.idle, tps),
        mode_reading(i, "iowait"@, ticks(c.iowait), tps),
        mode_reading(i, "irq"@, ticks(c.irq), tps),
        mode_reading(i, "softirq"@, ticks(c.softirq), tps),
        mode_reading(i, "steal"@, ticks(c.steal), tps),
    ]
}

/// The frequency in a file, in hertz.
pub open spec fn hertz(content: Option<Seq<char>>) -> Option<Value> {
    match sysfs::numbered(content) {
        Some(khz) => Some(Value::Product { left: khz as u64, right: 1000 }),
        None => None,
    }
}

/// The frequencies of a processor.
pub open spec fn frequency_figures(c: CpuFiles) -> Seq<FigureView> {
    seq![
        reading::gauge_figure_view(
            "node_cpu_scaling_frequency_hertz"@,
            hertz(sysfs::opt(c.scaling_cur_freq)),
        ),
        reading::gauge_figure_view(
            "node_cpu_scaling_frequency_min_hertz"@,
            hertz(sysfs::opt(c.scaling_min_freq)),
        ),
        reading::gauge_figure_view(
            "node_cpu_scaling_frequency_max_hertz"@,
            hertz(sysfs::opt(c.scaling_max_freq)),
        ),
        reading::gauge_figure_view(
            "node_cpu_frequency_min_hertz"@,
            hertz(sysfs::opt(c.cpuinfo_min_freq)),
        ),
        reading::gauge_figure_view(
            "node_cpu_frequency_max_hertz"@,
            hertz(sysfs::opt(c.cpuinfo_max_freq)),
        ),
    ]
}

/// The governor of a processor, as a label.
pub open spec fn governor_readings(i: nat, c: CpuFiles) -> Seq<ReadingView> {
    match sysfs::said(sysfs::opt(c.scaling_governor)) {
        Some(g) => seq![
            reading::gauge_view(
                "node_cpu_scaling_governor"@,
                Value::Whole(1),
                of_cpu(i).insert("governor"@, g),
            ),
        ],
        None => Seq::empty(),
    }
}

/// The package of a processor.
pub open spec fn package_of(c: CpuFiles) -> Option<Seq<char>> {
    sysfs::said(sysfs::opt(c.package))
}

/// How often a processor was throttled. The package is a label where it is known.
pub open spec fn core_readings(i: nat, c: CpuFiles) -> Seq<ReadingView> {
    match sysfs::numbered(sysfs::opt(c.core_throttle_count)) {
        Some(n) => seq![
            reading::counter_view(
                "node_cpu_core_throttles_total"@,
                Value::Whole(n as u64),
                match package_of(c) {
                    Some(p) => of_cpu(i).insert("package"@, p),
                    None => of_cpu(i),
                },
            ),
        ],
        None => Seq::empty(),
    }
}

/// The packages of some processors.
pub open spec fn packages(cpus: Seq<CpuFiles>) -> Seq<Seq<char>>
    decreases cpus.len(),
{
    if cpus.len() == 0 {
        Seq::empty()
    } else {
        match package_of(cpus.last()) {
            Some(p) => packages(cpus.drop_last()).push(p),
            None => packages(cpus.drop_last()),
        }
    }
}

/// How often a package was throttled. Each of its processors has the same count, so only
/// the first one reports it.
pub open spec fn package_readings(c: CpuFiles, seen: Seq<Seq<char>>) -> Seq<ReadingView> {
    match (package_of(c), sysfs::numbered(sysfs::opt(c.package_throttle_count))) {
        (Some(p), Some(n)) => if seen.contains(p) {
            Seq::empty()
        } else {
            seq![
                reading::counter_view(
                    "node_cpu_package_throttles_total"@,
                    Value::Whole(n as u64),
                    Map::empty().insert("package"@, p),
                ),
            ]
        },
        _ => Seq::empty(),
    }
}

/// The readings of a processor.
pub open spec fn cpu_readings(i: nat, c: CpuFiles, tps: u64, seen: Seq<Seq<char>>) -> Seq<
    ReadingView,
> {
    mode_readings(i, c, tps) + reading::figured(frequency_figures(c), of_cpu(i))
        + governor_readings(i, c) + core_readings(i, c) + package_readings(c, seen)
}

/// The readings of some processors, one after the other, where there are `tps` ticks in a
/// second.
pub open spec fn cpus_readings(cpus: Seq<CpuFiles>, tps: u64) -> Seq<ReadingView>
    decreases cpus.len(),
{
    if cpus.len() == 0 {
        Seq::empty()
    } else {
        cpus_readings(cpus.drop_last(), tps) + cpu_readings(
            (cpus.len() - 1) as nat,
            cpus.last(),
            tps,
            packages(cpus.drop_last()),
        )
    }
}

/// Of the processors of a package, only the first one reports how often the package was
/// throttled.
pub proof fn package_reported_by_its_first_cpu(cpus: Seq<CpuFiles>, j: int, i: int)
    requires
        0 <= j < i < cpus.len(),
        package_of(cpus[j]) is Some,
        package_of(cpus[j]) == package_of(cpus[i]),
    ensures
        package_readings(cpus[i], packages(cpus.take(i))) == Seq::<ReadingView>::empty(),
{
    listed_package(cpus.take(i), j);
}

proof fn listed_package(cpus: Seq<CpuFiles>, j: int)
    requires
        0 <= j < cpus.len(),
        package_of(cpus[j]) is Some,
    ensures
        packages(cpus).contains(package_of(cpus[j])->0),
    decreases cpus.len(),
{
    let before = packages(cpus.drop_last());
    let p = package_of(cpus[j])->0;
    if j == cpus.len() - 1 {
        assert(before.push(p)[before.len() as int] == p);
    } else {
        listed_package(cpus.drop_last(), j);
        let k = choose|k: int| 0 <= k < before.len() && before[k] == p;
        match package_of(cpus.last()) {
            Some(q) => {
                assert(before.push(q)[k] == p);
            },
            None => {},
        }
    }
}

fn cpu_labels(cpu: &str, i: Ghost<nat>) -> (l: Labels)
    requires
        cpu@ == number::decimal(i@),
    ensures
        l@ == of_cpu(i@),
{
    labels::one_label("cpu", cpu)
}

fn mode(out: &mut Vec<Reading>, cpu: &str, i: Ghost<nat>, mode: &str, n: u64, tps: u64)
    requires
        cpu@ == number::decimal(i@),
    ensures
        reading::reading_views(final(out)@) == reading::reading_views(old(out)@).push(
            mode_reading(i@, mode@, n, tps),
        ),
{
    let mut l = cpu_labels(cpu, i);
    labels::set_label(&mut l, "mode", mode);
    reading::push(
        out,
        reading::counter("node_cpu_seconds_total", Value::Ratio { num: n, den: tps }, l),
    );
}

fn hertz_of(content: &Option<String>) -> (r: Option<Value>)
    ensures
        r == hertz(sysfs::opt(*content)),
{
    match sysfs::read_u64(content) {
        Some(khz) => Some(Value::Product { left: khz, right: 1000 }),
        None => None,
    }
}

fn frequencies(c: &CpuFiles) -> (r: Vec<Figure>)
    ensures
        reading::figure_views(r@) == frequency_figures(*c),
{
    let r: Vec<Figure> = vec![
        reading::gauge_figure("node_cpu_scaling_frequency_hertz", hertz_of(&c.scaling_cur_freq)),
        reading::gauge_figure("node_cpu_scaling_frequency_min_hertz", hertz_of(&c.scaling_min_freq)),
        reading::gauge_figure("node_cpu_scaling_frequency_max_hertz", hertz_of(&c.scaling_max_freq)),
        reading::gauge_figure("node_cpu_frequency_min_hertz", hertz_of(&c.cpuinfo_min_freq)),
        reading::gauge_figure("node_cpu_frequency_max_hertz", hertz_of(&c.cpuinfo_max_freq)),
    ];
    assert(reading::figure_views(r@) =~= frequency_figures(*c));
    r
}

fn has_text(v: &Vec<String>, t: &str) -> (r: bool)
    ensures
        r == text::texts(v@).contains(t@),
{
    let ghost all = text::texts(v@);
    let mut i: usize = 0;
    while i < v.len()
        invariant
            i <= v@.len(),
            all == text::texts(v@),
            forall|k: int| 0 <= k < i ==> #[trigger] all[k] != t@,
        decreases v@.len() - i,
    {
        if text::same(v[i].as_str(), t) {
            assert(all[i as int] == t@);
            assert(all.contains(t@));
            return true;
        }
        i = i + 1;
    }
    assert(!all.contains(t@));
    false
}

fn collect_cpu(i: usize, c: &CpuFiles, tps: u64, seen: &Vec<String>) -> (r: Vec<Reading>)
    ensures
        reading::reading_views(r@) == cpu_readings(i as nat, *c, tps, text::texts(seen@)),
{
    let cpu = number::decimal_text(i as u64);
    let n: Ghost<nat> = Ghost(i as nat);
    let mut out: Vec<Reading> = Vec::new();
    assert(reading::reading_views(out@) =~= Seq::empty());
    mode(&mut out, cpu.as_str(), n, "user", c.user, tps);
    mode(&mut out, cpu.as_str(), n, "nice", c.nice, tps);
    mode(&mut out, cpu.as_str(), n, "system", c.system, tps);
    mode(&mut out, cpu.as_str(), n, "idle", c.idle, tps);
    mode(&mut out, cpu.as_str(), n, "iowait", ticks_of(c.iowait), tps);
    mode(&mut out, cpu.as_str(), n, "irq", ticks_of(c.irq), tps);
    mode(&mut out, cpu.as_str(), n, "softirq", ticks_of(c.softirq), tps);
    mode(&mut out, cpu.as_str(), n, "steal", ticks_of(c.steal), tps);
    let ghost modes = mode_readings(n@, *c, tps);
    assert(reading::reading_views(out@) =~= modes);
    let f = frequencies(c);
    let mut more = reading::figures(&f, &cpu_labels(cpu.as_str(), n));
    reading::append(&mut out, &mut more);
    let ghost with_frequencies = reading::reading_views(out@);
    match sysfs::read_string(&c.scaling_governor) {
        Some(g) => {
            let mut l = cpu_labels(cpu.as_str(), n);
            labels::set_label(&mut l, "governor", g.as_str());
            reading::push(&mut out, reading::gauge("node_cpu_scaling_governor", Value::Whole(1), l));
        },
        None => {},
    }
    let ghost with_governor = reading::reading_views(out@);
    assert(with_governor =~= with_frequencies + governor_readings(n@, *c));
    let package = sysfs::read_string(&c.package);
    match sysfs::read_u64(&c.core_throttle_count) {
        Some(count) => {
            let mut l = cpu_labels(cpu.as_str(), n);
            match &package {
                Some(p) => {
                    labels::set_label(&mut l, "package", p.as_str());
                },
                None => {},
            }
            reading::push(
                &mut out,
                reading::counter("node_cpu_core_throttles_total", Value::Whole(count), l),
            );
        },
        None => {},
    }
    let ghost with_core = reading::reading_views(out@);
    assert(with_core =~= with_governor + core_readings(n@, *c));
    match &package {
        Some(p) => {
            if !has_text(seen, p.as_str()) {
                match sysfs::read_u64(&c.package_throttle_count) {
                    Some(count) => {
                        let l = labels::one_label("package", p.as_str());
                        reading::push(
                            &mut out,
                            reading::counter(
                                "node_cpu_package_throttles_total",
                                Value::Whole(count),
                                l,
                            ),
                        );
                    },
                    None => {},
                }
            }
        },
        None => {},
    }
    assert(reading::reading_views(out@) =~= with_core + package_readings(
        *c,
        text::texts(seen@),
    ));
    out
}

/// The readings of every processor, where there are `tps` ticks in a second.
pub fn collect(cpus: &Vec<CpuFiles>, tps: u64) -> (r: Vec<Reading>)
    ensures
        reading::reading_views(r@) == cpus_readings(cpus@, tps),
{
    let mut out: Vec<Reading> = Vec::new();
    let mut seen: Vec<String> = Vec::new();
    let mut i: usize = 0;
    assert(reading::reading_views(out@) =~= Seq::empty());
    assert(text::texts(seen@) =~= packages(cpus@.take(0)));
    while i < cpus.len()
        invariant
            i <= cpus@.len(),
            reading::reading_views(out@) == cpus_readings(cpus@.take(i as int), tps),
            text::texts(seen@) == packages(cpus@.take(i as int)),
        decreases cpus@.len() - i,
    {
        assert(cpus@.take(i + 1).drop_last() =~= cpus@.take(i as int));
        assert(cpus@.take(i + 1).last() == cpus@[i as int]);
        let mut more = collect_cpu(i, &cpus[i], tps, &seen);
        reading::append(&mut out, &mut more);
        let ghost before = text::texts(seen@);
        match sysfs::read_string(&cpus[i].package) {
            Some(p) => {
                seen.push(p);
                assert(text::texts(seen@) =~= before.push(p@));
            },
            None => {},
        }
        i = i + 1;
    }
    assert(cpus@.take(i as int) =~= cpus@);
    out
}

// Laws

/// The reading of the time that a processor spent in a mode: ticks over the ticks in a second.
pub open spec fn time_in(i: nat, mode: Seq<char>, ticks: u64, tps: u64) -> ReadingView {
    ReadingView {
        name: "node_cpu_seconds_total"@,
        value: Value::Ratio { num: ticks, den: tps },
        labels: Map::empty().insert("cpu"@, number::decimal(i)).insert("mode"@, mode),
        metric_type: MetricType::Counter,
    }
}

/// A file with a number of kilohertz, in hertz.
pub open spec fn kilohertz(file: Option<String>) -> Option<Value> {
    match file {
        Some(s) => match sysfs::numbered(Some(s@)) {
            Some(khz) => Some(Value::Product { left: khz as u64, right: 1000 }),
            None => None,
        },
        None => None,
    }
}

/// The time of a processor is reported for every mode under the name of that mode, once: what it
/// idled as idle, what it spent on users as user. A mode that is not counted is 0.
pub proof fn times_are_reported_by_mode(i: nat, c: CpuFiles, tps: u64, seen: Seq<Seq<char>>)
    ensures
        reading::of_name(cpu_readings(i, c, tps, seen), "node_cpu_seconds_total"@) == seq![
            time_in(i, "user"@, c.user, tps),
            time_in(i, "nice"@, c.nice, tps),
            time_in(i, "system"@, c.system, tps),
            time_in(i, "idle"@, c.idle, tps),
            time_in(i, "iowait"@, match c.iowait {
                    Some(n) => n,
                    None => 0,
                }, tps),
            time_in(i, "irq"@, match c.irq {
                    Some(n) => n,
                    None => 0,
                }, tps),
            time_in(i, "softirq"@, match c.softirq {
                    Some(n) => n,
                    None => 0,
                }, tps),
            time_in(i, "steal"@, match c.steal {
                    Some(n) => n,
                    None => 0,
                }, tps),
        ],
{
    let modes = mode_readings(i, c, tps);
    let f = frequency_figures(c);
    let labels = of_cpu(i);
    let figures = reading::figured(f, labels);
    let governor = governor_readings(i, c);
    let core = core_readings(i, c);
    let package = package_readings(c, seen);
    reveal_strlit("node_cpu_seconds_total");
    reveal_strlit("node_cpu_scaling_frequency_hertz");
    reveal_strlit("node_cpu_scaling_frequency_min_hertz");
    reveal_strlit("node_cpu_scaling_frequency_max_hertz");
    reveal_strlit("node_cpu_frequency_min_hertz");
    reveal_strlit("node_cpu_frequency_max_hertz");
    reveal_strlit("node_cpu_scaling_governor");
    reveal_strlit("node_cpu_core_throttles_total");
    reveal_strlit("node_cpu_package_throttles_total");
    assert("node_cpu_seconds_total"@.len() == 22);
    assert("node_cpu_scaling_frequency_hertz"@.len() == 32);
    assert("node_cpu_scaling_frequency_min_hertz"@.len() == 36);
    assert("node_cpu_scaling_frequency_max_hertz"@.len() == 36);
    assert("node_cpu_frequency_min_hertz"@.len() == 28);
    assert("node_cpu_frequency_max_hertz"@.len() == 28);
    assert("node_cpu_scaling_governor"@.len() == 25);
    assert("node_cpu_core_throttles_total"@.len() == 29);
    assert("node_cpu_package_throttles_total"@.len() == 32);
    assert("node_cpu_scaling_frequency_hertz"@[9] == 's');
    assert("node_cpu_package_throttles_total"@[9] == 'p');
    assert("node_cpu_scaling_frequency_min_hertz"@[28] == 'i');
    assert("node_cpu_scaling_frequency_max_hertz"@[28] == 'a');
    assert("node_cpu_frequency_min_hertz"@[20] == 'i');
    assert("node_cpu_frequency_max_hertz"@[20] == 'a');
    assert(forall|k: int| 0 <= k < f.len() ==> (#[trigger] f[k]).name != "node_cpu_seconds_total"@);
    reading::figures_have_their_names(f, labels, "node_cpu_seconds_total"@);
    reading::of_name_joined(modes, figures, "node_cpu_seconds_total"@);
    reading::of_name_joined(modes + figures, governor, "node_cpu_seconds_total"@);
    reading::of_name_joined(modes + figures + governor, core, "node_cpu_seconds_total"@);
    reading::of_name_joined(modes + figures + governor + core, package, "node_cpu_seconds_total"@);
    reading::of_name_uniform(modes, "node_cpu_seconds_total"@);
    assert(reading::none_named(figures, "node_cpu_seconds_total"@));
    reading::of_name_uniform(figures, "node_cpu_seconds_total"@);
    assert(reading::none_named(governor, "node_cpu_seconds_total"@));
    reading::of_name_uniform(governor, "node_cpu_seconds_total"@);
    assert(reading::none_named(core, "node_cpu_seconds_total"@));
    reading::of_name_uniform(core, "node_cpu_seconds_total"@);
    assert(reading::none_named(package, "node_cpu_seconds_total"@));
    reading::of_name_uniform(package, "node_cpu_seconds_total"@);
    assert(modes =~= seq![
        time_in(i, "user"@, c.user, tps),
        time_in(i, "nice"@, c.nice, tps),
        time_in(i, "system"@, c.system, tps),
        time_in(i, "idle"@, c.idle, tps),
        time_in(i, "iowait"@, match c.iowait {
                Some(n) => n,
                None => 0,
            }, tps),
        time_in(i, "irq"@, match c.irq {
                Some(n) => n,
                None => 0,
            }, tps),
        time_in(i, "softirq"@, match c.softirq {
                Some(n) => n,
                None => 0,
            }, tps),
        time_in(i, "steal"@, match c.steal {
                Some(n) => n,
                None => 0,
            }, tps),
    ]);
    assert(reading::all_named(modes, "node_cpu_seconds_total"@));
    assert(modes + Seq::<ReadingView>::empty() + Seq::<ReadingView>::empty() + Seq::<
        ReadingView,
    >::empty() + Seq::<ReadingView>::empty() =~= modes);
}

/// Every frequency of a processor is reported once, in hertz and under its own name, where its
/// file holds a number.
pub proof fn frequencies_are_reported_by_name(i: nat, c: CpuFiles, tps: u64, seen: Seq<Seq<char>>)
    ensures
        reading::of_name(cpu_readings(i, c, tps, seen), "node_cpu_scaling_frequency_hertz"@) == reading::only(
            "node_cpu_scaling_frequency_hertz"@,
            kilohertz(c.scaling_cur_freq),
            Map::empty().insert("cpu"@, number::decimal(i)),
            MetricType::Gauge,
        ),
        reading::of_name(cpu_readings(i, c, tps, seen), "node_cpu_scaling_frequency_min_hertz"@) == reading::only(
            "node_cpu_scaling_frequency_min_hertz"@,
            kilohertz(c.scaling_min_freq),
            Map::empty().insert("cpu"@, number::decimal(i)),
            MetricType::Gauge,
        ),
        reading::of_name(cpu_readings(i, c, tps, seen), "node_cpu_scaling_frequency_max_hertz"@) == reading::only(
            "node_cpu_scaling_frequency_max_hertz"@,
            kilohertz(c.scaling_max_freq),
            Map::empty().insert("cpu"@, number::decimal(i)),
            MetricType::Gauge,
        ),
        reading::of_name(cpu_readings(i, c, tps, seen), "node_cpu_frequency_min_hertz"@) == reading::only(
            "node_cpu_frequency_min_hertz"@,
            kilohertz(c.cpuinfo_min_freq),
            Map::empty().insert("cpu"@, number::decimal(i)),
            MetricType::Gauge,
        ),
        reading::of_name(cpu_readings(i, c, tps, seen), "node_cpu_frequency_max_hertz"@) == reading::only(
            "node_cpu_frequency_max_hertz"@,
            kilohertz(c.cpuinfo_max_freq),
            Map::empty().insert("cpu"@, number::decimal(i)),
            MetricType::Gauge,
        ),
{
    let modes = mode_readings(i, c, tps);
    let f = frequency_figures(c);
    let labels = of_cpu(i);
    let figures = reading::figured(f, labels);
    let governor = governor_readings(i, c);
    let core = core_readings(i, c);
    let package = package_readings(c, seen);
    reveal_strlit("node_cpu_seconds_total");
    reveal_strlit("node_cpu_scaling_frequency_hertz");
    reveal_strlit("node_cpu_scaling_frequency_min_hertz");
    reveal_strlit("node_cpu_scaling_frequency_max_hertz");
    reveal_strlit("node_cpu_frequency_min_hertz");
    reveal_strlit("node_cpu_frequency_max_hertz");
    reveal_strlit("node_cpu_scaling_governor");
    reveal_strlit("node_cpu_core_throttles_total");
    reveal_strlit("node_cpu_package_throttles_total");
    assert("node_cpu_seconds_total"@.len() == 22);
    assert("node_cpu_scaling_frequency_hertz"@.len() == 32);
    assert("node_cpu_scaling_frequency_min_hertz"@.len() == 36);
    assert("node_cpu_scaling_frequency_max_hertz"@.len() == 36);
    assert("node_cpu_frequency_min_hertz"@.len() == 28);
    assert("node_cpu_frequency_max_hertz"@.len() == 28);
    assert("node_cpu_scaling_governor"@.len() == 25);
    assert("node_cpu_core_throttles_total"@.len() == 29);
    assert("node_cpu_package_throttles_total"@.len() == 32);
    assert("node_cpu_scaling_frequency_hertz"@[9] == 's');
    assert("node_cpu_package_throttles_total"@[9] == 'p');
    assert("node_cpu_scaling_frequency_min_hertz"@[28] == 'i');
    assert("node_cpu_scaling_frequency_max_hertz"@[28] == 'a');
    assert("node_cpu_frequency_min_hertz"@[20] == 'i');
    assert("node_cpu_frequency_max_hertz"@[20] == 'a');
    assert(f.len() == 5);
    assert(f[0].name == "node_cpu_scaling_frequency_hertz"@);
    assert(f[1].name == "node_cpu_scaling_frequency_min_hertz"@);
    assert(f[2].name == "node_cpu_scaling_frequency_max_hertz"@);
    assert(f[3].name == "node_cpu_frequency_min_hertz"@);
    assert(f[4].name == "node_cpu_frequency_max_hertz"@);
    reading::a_figure_is_read_once(f, labels, 0);
    reading::of_name_joined(modes, figures, "node_cpu_scaling_frequency_hertz"@);
    reading::of_name_joined(modes + figures, governor, "node_cpu_scaling_frequency_hertz"@);
    reading::of_name_joined(modes + figures + governor, core, "node_cpu_scaling_frequency_hertz"@);
    reading::of_name_joined(modes + figures + governor + core, package, "node_cpu_scaling_frequency_hertz"@);
    assert(reading::none_named(modes, "node_cpu_scaling_frequency_hertz"@));
    reading::of_name_uniform(modes, "node_cpu_scaling_frequency_hertz"@);
    assert(reading::none_named(governor, "node_cpu_scaling_frequency_hertz"@));
    reading::of_name_uniform(governor, "node_cpu_scaling_frequency_hertz"@);
    assert(reading::none_named(core, "node_cpu_scaling_frequency_hertz"@));
    reading::of_name_uniform(core, "node_cpu_scaling_frequency_hertz"@);
    assert(reading::none_named(package, "node_cpu_scaling_frequency_hertz"@));
    reading::of_name_uniform(package, "node_cpu_scaling_frequency_hertz"@);
    empties_around(reading::of_name(figures, "node_cpu_scaling_frequency_hertz"@));
    reading::a_figure_is_read_once(f, labels, 1);
    reading::of_name_joined(modes, figures, "node_cpu_scaling_frequency_min_hertz"@);
    reading::of_name_joined(modes + figures, governor, "node_cpu_scaling_frequency_min_hertz"@);
    reading::of_name_joined(modes + figures + governor, core, "node_cpu_scaling_frequency_min_hertz"@);
    reading::of_name_joined(modes + figures + governor + core, package, "node_cpu_scaling_frequency_min_hertz"@);
    assert(reading::none_named(modes, "node_cpu_scaling_frequency_min_hertz"@));
    reading::of_name_uniform(modes, "node_cpu_scaling_frequency_min_hertz"@);
    assert(reading::none_named(governor, "node_cpu_scaling_frequency_min_hertz"@));
    reading::of_name_uniform(governor, "node_cpu_scaling_frequency_min_hertz"@);
    assert(reading::none_named(core, "node_cpu_scaling_frequency_min_hertz"@));
    reading::of_name_uniform(core, "node_cpu_scaling_frequency_min_hertz"@);
    assert(reading::none_named(package, "node_cpu_scaling_frequency_min_hertz"@));
    reading::of_name_uniform(package, "node_cpu_scaling_frequency_min_hertz"@);
    empties_around(reading::of_name(figures, "node_cpu_scaling_frequency_min_hertz"@));
    reading::a_figure_is_read_once(f, labels, 2);
    reading::of_name_joined(modes, figures, "node_cpu_scaling_frequency_max_hertz"@);
    reading::of_name_joined(modes + figures, governor, "node_cpu_scaling_frequency_max_hertz"@);
    reading::of_name_joined(modes + figures + governor, core, "node_cpu_scaling_frequency_max_hertz"@);
    reading::of_name_joined(modes + figures + governor + core, package, "node_cpu_scaling_frequency_max_hertz"@);
    assert(reading::none_named(modes, "node_cpu_scaling_frequency_max_hertz"@));
    reading::of_name_uniform(modes, "node_cpu_scaling_frequency_max_hertz"@);
    assert(reading::none_named(governor, "node_cpu_scaling_frequency_max_hertz"@));
    reading::of_name_uniform(governor, "node_cpu_scaling_frequency_max_hertz"@);
    assert(reading::none_named(core, "node_cpu_scaling_frequency_max_hertz"@));
    reading::of_name_uniform(core, "node_cpu_scaling_frequency_max_hertz"@);
    assert(reading::none_named(package, "node_cpu_scaling_frequency_max_hertz"@));
    reading::of_name_uniform(package, "node_cpu_scaling_frequency_max_hertz"@);
    empties_around(reading::of_name(figures, "node_cpu_scaling_frequency_max_hertz"@));
    reading::a_figure_is_read_once(f, labels, 3);
    reading::of_name_joined(modes, figures, "node_cpu_frequency_min_hertz"@);
    reading::of_name_joined(modes + figures, governor, "node_cpu_frequency_min_hertz"@);
    reading::of_name_joined(modes + figures + governor, core, "node_cpu_frequency_min_hertz"@);
    reading::of_name_joined(modes + figures + governor + core, package, "node_cpu_frequency_min_hertz"@);
    assert(reading::none_named(modes, "node_cpu_frequency_min_hertz"@));
    reading::of_name_uniform(modes, "node_cpu_frequency_min_hertz"@);
    assert(reading::none_named(governor, "node_cpu_frequency_min_hertz"@));
    reading::of_name_uniform(governor, "node_cpu_frequency_min_hertz"@);
    assert(reading::none_named(core, "node_cpu_frequency_min_hertz"@));
    reading::of_name_uniform(core, "node_cpu_frequency_min_hertz"@);
    assert(reading::none_named(package, "node_cpu_frequency_min_hertz"@));
    reading::of_name_uniform(package, "node_cpu_frequency_min_hertz"@);
    empties_around(reading::of_name(figures, "node_cpu_frequency_min_hertz"@));
    reading::a_figure_is_read_once(f, labels, 4);
    reading::of_name_joined(modes, figures, "node_cpu_frequency_max_hertz"@);
    reading::of_name_joined(modes + figures, governor, "node_cpu_frequency_max_hertz"@);
    reading::of_name_joined(modes + figures + governor, core, "node_cpu_frequency_max_hertz"@);
    reading::of_name_joined(modes + figures + governor + core, package, "node_cpu_frequency_max_hertz"@);
    assert(reading::none_named(modes, "node_cpu_frequency_max_hertz"@));
    reading::of_name_uniform(modes, "node_cpu_frequency_max_hertz"@);
    assert(reading::none_named(governor, "node_cpu_frequency_max_hertz"@));
    reading::of_name_uniform(governor, "node_cpu_frequency_max_hertz"@);
    assert(reading::none_named(core, "node_cpu_frequency_max_hertz"@));
    reading::of_name_uniform(core, "node_cpu_frequency_max_hertz"@);
    assert(reading::none_named(package, "node_cpu_frequency_max_hertz"@));
    reading::of_name_uniform(package, "node_cpu_frequency_max_hertz"@);
    empties_around(reading::of_name(figures, "node_cpu_frequency_max_hertz"@));
}

proof fn empties_around(r: Seq<ReadingView>)
    ensures
        Seq::<ReadingView>::empty() + r + Seq::<ReadingView>::empty() + Seq::<ReadingView>::empty()
            + Seq::<ReadingView>::empty() == r,
{
    assert(Seq::<ReadingView>::empty() + r + Seq::<ReadingView>::empty() + Seq::<
        ReadingView,
    >::empty() + Seq::<ReadingView>::empty() =~= r);
}

/// The governor of a processor, how often the processor was throttled, and how often its package
/// was, are reported as the files have them. The package is reported by the first of its
/// processors.
pub proof fn throttles_are_reported_as_counted(i: nat, c: CpuFiles, tps: u64, seen: Seq<Seq<char>>)
    ensures
        sysfs::said(sysfs::opt(c.scaling_governor)) matches Some(g) ==> cpu_readings(
            i,
            c,
            tps,
            seen,
        ).contains(
            (ReadingView {
                name: "node_cpu_scaling_governor"@,
                value: Value::Whole(1),
                labels: Map::empty().insert("cpu"@, number::decimal(i)).insert("governor"@, g),
                metric_type: MetricType::Gauge,
            }),
        ),
        sysfs::numbered(sysfs::opt(c.core_throttle_count)) matches Some(n) ==> cpu_readings(
            i,
            c,
            tps,
            seen,
        ).contains(
            (ReadingView {
                name: "node_cpu_core_throttles_total"@,
                value: Value::Whole(n as u64),
                labels: match sysfs::said(sysfs::opt(c.package)) {
                    Some(p) => Map::empty().insert("cpu"@, number::decimal(i)).insert("package"@, p),
                    None => Map::empty().insert("cpu"@, number::decimal(i)),
                },
                metric_type: MetricType::Counter,
            }),
        ),
        (sysfs::said(sysfs::opt(c.package)) matches Some(p) && !seen.contains(p)) ==> (
        sysfs::numbered(sysfs::opt(c.package_throttle_count)) matches Some(n) ==> cpu_readings(
            i,
            c,
            tps,
            seen,
        ).contains(
            (ReadingView {
                name: "node_cpu_package_throttles_total"@,
                value: Value::Whole(n as u64),
                labels: Map::empty().insert("package"@, sysfs::said(sysfs::opt(c.package))->0),
                metric_type: MetricType::Counter,
            }),
        )),
{
    let modes = mode_readings(i, c, tps);
    let f = frequency_figures(c);
    let labels = of_cpu(i);
    let figures = reading::figured(f, labels);
    let governor = governor_readings(i, c);
    let core = core_readings(i, c);
    let package = package_readings(c, seen);
    let r = cpu_readings(i, c, tps, seen);
    let n = modes.len() + figures.len();
    if governor.len() > 0 {
        assert(r[n as int] == governor[0]);
    }
    if core.len() > 0 {
        assert(r[(n + governor.len()) as int] == core[0]);
    }
    if package.len() > 0 {
        assert(r[(n + governor.len() + core.len()) as int] == package[0]);
    }
}

/// What is reported of some processors is what each of them says, one after the other, with its
/// position as its number.
pub proof fn every_processor_is_reported(cpus: Seq<CpuFiles>, tps: u64)
    ensures
        cpus_readings(cpus, tps) == reading::chained(
            Seq::new(
                cpus.len(),
                |i: int| cpu_readings(i as nat, cpus[i], tps, packages(cpus.take(i))),
            ),
        ),
    decreases cpus.len(),
{
    let own = Seq::new(
        cpus.len(),
        |i: int| cpu_readings(i as nat, cpus[i], tps, packages(cpus.take(i))),
    );
    if cpus.len() > 0 {
        let t = cpus.drop_last();
        every_processor_is_reported(t, tps);
        let before = Seq::new(
            t.len(),
            |i: int| cpu_readings(i as nat, t[i], tps, packages(t.take(i))),
        );
        assert forall|i: int| 0 <= i < t.len() implies own.drop_last()[i] == before[i] by {
            assert(cpus.take(i) =~= t.take(i));
        }
        assert(own.drop_last() =~= before);
        assert(cpus.take(cpus.len() - 1) =~= t);
    }
}

} // verus!
