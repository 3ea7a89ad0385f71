//! The host's own metrics, from `/proc` and `/sys`.
use regex::Regex;
use vstd::prelude::*;

use crate::collector::label_cache::LabelCache;
use crate::collector::reading::{self, Reading, ReadingView};
use crate::collector::unix::cpu::CpuFiles;
use crate::collector::unix::disk::DiskStat;
use crate::collector::unix::filesystem::{MeasuredMount, Mount};
use crate::collector::unix::hwmon::{BlockDevice, ChipFiles};
use crate::collector::unix::loadavg::LoadAverage;
use crate::collector::unix::md::ArrayFiles;
use crate::collector::unix::memory::MemoryStat;
use crate::collector::unix::netdev::NetDevice;
use crate::collector::unix::uname::SystemName;
use crate::config::{self, CollectorConfig, Config, UnixCollectorConfig};
use crate::error::{Error, Result};
use crate::labels::{self, Label};
use crate::pattern;
use crate::signal::{self, Metric, NamePool};
use crate::text;
use crate::time::Timestamp;

pub mod cpu;
pub mod disk;
pub mod filesystem;
pub mod hwmon;
pub mod loadavg;
pub mod md;
pub mod memory;
pub mod netdev;
pub mod sysfs;
pub mod uname;

verus! {

/// A part of the collector.
#[derive(Debug, Clone, Copy, PartialEq, Eq, Structural)]
pub enum Sub {
    Cpu,
    Memory,
    Disk,
    Filesystem,
    Md,
    Hwmon,
    Netdev,
    Loadavg,
    Uname,
}

/// The part with a name.
pub open spec fn sub_named(name: Seq<char>) -> Option<Sub> {
    if name == "cpu"@ {
        Some(Sub::Cpu)
    } else if name == "memory"@ {
        Some(Sub::Memory)
    } else if name == "disk"@ {
        Some(Sub::Disk)
    } else if name == "filesystem"@ {
        Some(Sub::Filesystem)
    } else if name == "md"@ {
        Some(Sub::Md)
    } else if name == "hwmon"@ {
        Some(Sub::Hwmon)
    } else if name == "netdev"@ {
        Some(Sub::Netdev)
    } else if name == "loadavg"@ {
        Some(Sub::Loadavg)
    } else if name == "uname"@ {
        Some(Sub::Uname)
    } else {
        None
    }
}

/// The part with a name.
pub fn sub_of(name: &str) -> (r: Option<Sub>)
    ensures
        r == sub_named(name@),
{
    if text::same(name, "cpu") {
        Some(Sub::Cpu)
    } else if text::same(name, "memory") {
        Some(Sub::Memory)
    } else if text::same(name, "disk") {
        Some(Sub::Disk)
    } else if text::same(name, "filesystem") {
        Some(Sub::Filesystem)
    } else if text::same(name, "md") {
        Some(Sub::Md)
    } else if text::same(name, "hwmon") {
        Some(Sub::Hwmon)
    } else if text::same(name, "netdev") {
        Some(Sub::Netdev)
    } else if text::same(name, "loadavg") {
        Some(Sub::Loadavg)
    } else if text::same(name, "uname") {
        Some(Sub::Uname)
    } else {
        None
    }
}

impl Sub {
    /// The name of the part.
    pub open spec fn called(self) -> Seq<char> {
        match self {
            Sub::Cpu => "cpu"@,
            Sub::Memory => "memory"@,
            Sub::Disk => "disk"@,
            Sub::Filesystem => "filesystem"@,
            Sub::Md => "md"@,
            Sub::Hwmon => "hwmon"@,
            Sub::Netdev => "netdev"@,
            Sub::Loadavg => "loadavg"@,
            Sub::Uname => "uname"@,
        }
    }

    /// The name of the part.
    pub fn name(self) -> (r: &'static str)
        ensures
            r@ == self.called(),
    {
        match self {
            Sub::Cpu => "cpu",
            Sub::Memory => "memory",
            Sub::Disk => "disk",
            Sub::Filesystem => "filesystem",
            Sub::Md => "md",
            Sub::Hwmon => "hwmon",
            Sub::Netdev => "netdev",
            Sub::Loadavg => "loadavg",
            Sub::Uname => "uname",
        }
    }
}

/// What a part of the collector found on the host.
pub enum Gathered {
    Cpu { cpus: Vec<CpuFiles>, ticks_per_second: u64 },
    Memory(MemoryStat),
    Disk(Vec<DiskStat>),
    Filesystem(Vec<MeasuredMount>),
    Md(Vec<ArrayFiles>),
    Hwmon { chips: Vec<ChipFiles>, blocks: Vec<BlockDevice> },
    Netdev(Vec<NetDevice>),
    Loadavg(LoadAverage),
    Uname(SystemName),
    /// The part could not read what it needs, for a reason.
    Failed { sub: Sub, error: String },
}

/// The texts that the filters match.
pub struct Filters {
    pub disk: Set<Seq<char>>,
    pub net: Set<Seq<char>>,
    pub mount: Set<Seq<char>>,
    pub fs_type: Set<Seq<char>>,
    pub hwmon: Set<Seq<char>>,
}

/// The readings of what a part found, or why there are none.
pub open spec fn readings_of(g: Gathered, f: Filters) -> std::result::Result<
    Seq<ReadingView>,
    Seq<char>,
> {
    match g {
        Gathered::Cpu { cpus, ticks_per_second } => Ok(
            cpu::cpus_readings(cpus@, ticks_per_second),
        ),
        Gathered::Memory(m) => Ok(reading::figured(memory::memory_figures(m), Map::empty())),
        Gathered::Disk(d) => Ok(disk::disks_readings(d@, f.disk)),
        Gathered::Filesystem(m) => Ok(filesystem::mounts_readings(m@)),
        Gathered::Md(a) => Ok(md::arrays_readings(a@)),
        Gathered::Hwmon { chips, blocks } => Ok(
            hwmon::chips_readings(chips@, blocks@, f.hwmon),
        ),
        Gathered::Netdev(d) => Ok(netdev::devices_readings(d@, f.net)),
        Gathered::Loadavg(l) => Ok(reading::figured(loadavg::load_figures(l), Map::empty())),
        Gathered::Uname(s) => Ok(seq![uname::system_reading(s)]),
        Gathered::Failed { sub, error } => Err(sub.called() + ": "@ + error@),
    }
}

/// The readings of what some parts found, one part after the other, or why the first part
/// that failed has none.
pub open spec fn all_readings(g: Seq<Gathered>, f: Filters) -> std::result::Result<
    Seq<ReadingView>,
    Seq<char>,
>
    decreases g.len(),
{
    if g.len() == 0 {
        Ok(Seq::empty())
    } else {
        match all_readings(g.drop_last(), f) {
            Err(e) => Err(e),
            Ok(before) => match readings_of(g.last(), f) {
                Err(e) => Err(e),
                Ok(more) => Ok(before + more),
            },
        }
    }
}

proof fn failure_stays(g: Seq<Gathered>, n: int, f: Filters)
    requires
        0 <= n <= g.len(),
        all_readings(g.take(n), f) is Err,
    ensures
        all_readings(g, f) == all_readings(g.take(n), f),
    decreases g.len(),
{
    if n < g.len() {
        assert(g.drop_last().take(n) =~= g.take(n));
        failure_stays(g.drop_last(), n, f);
    } else {
        assert(g.take(n) =~= g);
    }
}

/// The parts that run, in their order. A name that is not known is passed over.
pub open spec fn planned(names: Seq<Seq<char>>) -> Seq<Sub>
    decreases names.len(),
{
    if names.len() == 0 {
        Seq::empty()
    } else {
        match sub_named(names.last()) {
            Some(s) => planned(names.drop_last()).push(s),
            None => planned(names.drop_last()),
        }
    }
}

/// What is wrong with the expressions of a collector: the first one that does not compile.
pub open spec fn filter_fault(c: UnixCollectorConfig) -> Option<Seq<char>> {
    let none = Seq::<char>::empty();
    config::either(
        config::regex_fault(none, "invalid disk-devices regex: "@, c.disk_devices@),
        config::either(
            config::regex_fault(none, "invalid net-devices regex: "@, c.net_devices@),
            config::either(
                config::regex_fault(
                    none,
                    "invalid filesystem-mount-points regex: "@,
                    c.filesystem_mount_points@,
                ),
                config::either(
                    config::regex_fault(
                        none,
                        "invalid filesystem-fs-types regex: "@,
                        c.filesystem_fs_types@,
                    ),
                    config::regex_fault(none, "invalid hwmon-chips regex: "@, c.hwmon_chips@),
                ),
            ),
        ),
    )
}

fn compile_filter(what: &str, regex: &str) -> (r: Result<Regex>)
    ensures
        match r {
            Ok(re) => config::regex_fault(Seq::empty(), what@, regex@) is None
                && pattern::compiled(regex@) == Ok::<Set<Seq<char>>, Seq<char>>(
                pattern::language(re),
            ),
            Err(e) => config::regex_fault(Seq::empty(), what@, regex@) matches Some(m)
                && e.is_config(m),
        },
{
    proof {
        reveal_strlit("");
        assert(""@ =~= Seq::<char>::empty());
    }
    config::expression("", what, pattern::compile(regex))
}

/// The collector.
pub struct UnixCollector {
    name: String,
    enabled: Vec<String>,
    disk_filter: Regex,
    net_filter: Regex,
    fs_mount_filter: Regex,
    fs_type_filter: Regex,
    fs_dedupe_devices: bool,
    hwmon_filter: Regex,
    cache: LabelCache,
}

/// What the state of the collector says.
pub struct UnixView {
    pub name: Seq<char>,
    /// The names of the parts that run.
    pub enabled: Seq<Seq<char>>,
    pub filters: Filters,
    pub dedupe_devices: bool,
    /// The labels of every metric.
    pub base: Map<Seq<char>, Seq<char>>,
}

impl View for UnixCollector {
    type V = UnixView;

    closed spec fn view(&self) -> UnixView {
        UnixView {
            name: self.name@,
            enabled: text::texts(self.enabled@),
            filters: Filters {
                disk: pattern::language(self.disk_filter),
                net: pattern::language(self.net_filter),
                mount: pattern::language(self.fs_mount_filter),
                fs_type: pattern::language(self.fs_type_filter),
                hwmon: pattern::language(self.hwmon_filter),
            },
            dedupe_devices: self.fs_dedupe_devices,
            base: self.cache.base(),
        }
    }
}

/// The filters are those of a configuration.
pub open spec fn filters_of(f: Filters, c: UnixCollectorConfig) -> bool {
    &&& pattern::compiled(c.disk_devices@) == Ok::<Set<Seq<char>>, Seq<char>>(f.disk)
    &&& pattern::compiled(c.net_devices@) == Ok::<Set<Seq<char>>, Seq<char>>(f.net)
    &&& pattern::compiled(c.filesystem_mount_points@) == Ok::<Set<Seq<char>>, Seq<char>>(f.mount)
    &&& pattern::compiled(c.filesystem_fs_types@) == Ok::<Set<Seq<char>>, Seq<char>>(f.fs_type)
    &&& pattern::compiled(c.hwmon_chips@) == Ok::<Set<Seq<char>>, Seq<char>>(f.hwmon)
}

impl UnixCollector {
    /// The label sets that are kept.
    pub closed spec fn kept(&self) -> Set<Seq<Label>> {
        self.cache.kept()
    }

    /// A collector for a configuration. It fails where an expression does not compile.
    pub fn new(name: &str, config: &UnixCollectorConfig) -> (r: Result<UnixCollector>)
        ensures
            match r {
                Ok(c) => {
                    &&& filter_fault(*config) is None
                    &&& c@.name == name@
                    &&& c@.enabled == text::texts(config.collectors@)
                    &&& filters_of(c@.filters, *config)
                    &&& c@.dedupe_devices == config.filesystem_dedupe_devices
                    &&& c@.base == config.static_labels@
                    &&& c.kept() == Set::<Seq<Label>>::empty()
                },
                Err(e) => filter_fault(*config) matches Some(m) && e.is_config(m),
            },
    {
        let disk_filter = match compile_filter(
            "invalid disk-devices regex: ",
            config.disk_devices.as_str(),
        ) {
            Ok(re) => re,
            Err(e) => {
                return Err(e);
            },
        };
        let net_filter = match compile_filter(
            "invalid net-devices regex: ",
            config.net_devices.as_str(),
        ) {
            Ok(re) => re,
            Err(e) => {
                return Err(e);
            },
        };
        let fs_mount_filter = match compile_filter(
            "invalid filesystem-mount-points regex: ",
            config.filesystem_mount_points.as_str(),
        ) {
            Ok(re) => re,
            Err(e) => {
                return Err(e);
            },
        };
        let fs_type_filter = match compile_filter(
            "invalid filesystem-fs-types regex: ",
            config.filesystem_fs_types.as_str(),
        ) {
            Ok(re) => re,
            Err(e) => {
                return Err(e);
            },
        };
        let hwmon_filter = match compile_filter(
            "invalid hwmon-chips regex: ",
            config.hwmon_chips.as_str(),
        ) {
            Ok(re) => re,
            Err(e) => {
                return Err(e);
            },
        };
        Ok(
            UnixCollector {
                name: text::owned(name),
                enabled: text::copied(&config.collectors),
                disk_filter,
                net_filter,
                fs_mount_filter,
                fs_type_filter,
                fs_dedupe_devices: config.filesystem_dedupe_devices,
                hwmon_filter,
                cache: LabelCache::new(labels::copied(&config.static_labels)),
            },
        )
    }

    /// The name, for reports.
    pub fn name(&self) -> (r: &str)
        ensures
            r@ == self@.name,
    {
        self.name.as_str()
    }

    /// The parts that run, in their order.
    pub fn plan(&self) -> (r: Vec<Sub>)
        ensures
            r@ == planned(self@.enabled),
    {
        let ghost all = self@.enabled;
        let mut out: Vec<Sub> = Vec::new();
        let mut i: usize = 0;
        assert(out@ =~= planned(all.take(0)));
        while i < self.enabled.len()
            invariant
                i <= self.enabled@.len(),
                all == self@.enabled,
                all.len() == self.enabled@.len(),
                out@ == planned(all.take(i as int)),
            decreases self.enabled@.len() - i,
        {
            assert(all.take(i + 1).drop_last() =~= all.take(i as int));
            assert(all.take(i + 1).last() == self.enabled@[i as int]@);
            match sub_of(self.enabled[i].as_str()) {
                Some(s) => {
                    out.push(s);
                },
                None => {},
            }
            i = i + 1;
        }
        assert(all.take(i as int) =~= all);
        out
    }

    /// The mounts that are reported, among those of the host.
    pub fn select_mounts(&self, mounts: &Vec<Mount>) -> (r: Vec<Mount>)
        ensures
            filesystem::mount_views(r@) == filesystem::selected(
                filesystem::mount_views(mounts@),
                self@.filters.mount,
                self@.filters.fs_type,
                self@.dedupe_devices,
            ),
    {
        filesystem::select(
            mounts,
            &self.fs_mount_filter,
            &self.fs_type_filter,
            self.fs_dedupe_devices,
        )
    }

    fn read(&self, g: &Gathered) -> (r: Result<Vec<Reading>>)
        ensures
            match readings_of(*g, self@.filters) {
                Ok(v) => r matches Ok(x) && reading::reading_views(x@) == v,
                Err(m) => r matches Err(Error::Collector(e)) && e@ == m,
            },
    {
        match g {
            Gathered::Cpu { cpus, ticks_per_second } => Ok(cpu::collect(cpus, *ticks_per_second)),
            Gathered::Memory(m) => Ok(memory::collect(m)),
            Gathered::Disk(d) => Ok(disk::collect(d, &self.disk_filter)),
            Gathered::Filesystem(m) => Ok(filesystem::collect(m)),
            Gathered::Md(a) => Ok(md::collect(a)),
            Gathered::Hwmon { chips, blocks } => Ok(
                hwmon::collect(chips, blocks, &self.hwmon_filter),
            ),
            Gathered::Netdev(d) => Ok(netdev::collect(d, &self.net_filter)),
            Gathered::Loadavg(l) => Ok(loadavg::collect(*l)),
            Gathered::Uname(s) => Ok(uname::collect(s)),
            Gathered::Failed { sub, error } => Err(
                Error::Collector(text::cat3(sub.name(), ": ", error.as_str())),
            ),
        }
    }

    fn read_all(&self, gathered: &Vec<Gathered>) -> (r: Result<Vec<Reading>>)
        ensures
            match all_readings(gathered@, self@.filters) {
                Ok(v) => r matches Ok(x) && reading::reading_views(x@) == v,
                Err(m) => r matches Err(Error::Collector(e)) && e@ == m,
            },
    {
        let ghost f = self@.filters;
        let mut out: Vec<Reading> = Vec::new();
        let mut i: usize = 0;
        assert(gathered@.take(0) =~= Seq::empty());
        assert(reading::reading_views(out@) =~= Seq::empty());
        while i < gathered.len()
            invariant
                i <= gathered@.len(),
                f == self@.filters,
                all_readings(gathered@.take(i as int), f) == Ok::<Seq<ReadingView>, Seq<char>>(
                    reading::reading_views(out@),
                ),
            decreases gathered@.len() - i,
        {
            assert(gathered@.take(i + 1).drop_last() =~= gathered@.take(i as int));
            assert(gathered@.take(i + 1).last() == gathered@[i as int]);
            match self.read(&gathered[i]) {
                Ok(more) => {
                    let mut more = more;
                    reading::append(&mut out, &mut more);
                },
                Err(e) => {
                    proof {
                        failure_stays(gathered@, i + 1, f);
                    }
                    return Err(e);
                },
            }
            i = i + 1;
        }
        assert(gathered@.take(i as int) =~= gathered@);
        Ok(out)
    }

    /// The metrics of what the parts found. Where one failed there are none at all.
    pub fn collect(&mut self, gathered: &Vec<Gathered>, pool: &mut NamePool, now: Timestamp) -> (r:
        Result<Vec<Metric>>)
        ensures
            final(self)@ == old(self)@,
            match all_readings(gathered@, old(self)@.filters) {
                Ok(v) => r matches Ok(m) && m@.len() == v.len() && (forall|i: int|
                    0 <= i < v.len() ==> reading::measures(
                        #[trigger] m@[i],
                        v[i],
                        old(self)@.base,
                        now@,
                    )) && final(pool).names() == old(pool).names().union(signal::names_of(m@))
                    && final(self).kept() == old(self).kept().union(signal::label_sets_of(m@)),
                Err(m) => r matches Err(Error::Collector(e)) && e@ == m && *final(pool) == *old(
                    pool,
                ) && final(self).kept() == old(self).kept(),
            },
    {
        match self.read_all(gathered) {
            Ok(readings) => {
                let ghost views = reading::reading_views(readings@);
                assert(forall|i: int|
                    0 <= i < views.len() ==> #[trigger] views[i] == readings@[i]@);
                Ok(reading::measured(readings, &mut self.cache, pool, now))
            },
            Err(e) => Err(e),
        }
    }
}

// Laws

/// A collector can be made of a configuration that is valid once its placeholders are
/// replaced.
pub proof fn valid_configuration_compiles(c: UnixCollectorConfig, name: Seq<char>)
    requires
        c.resolved_fault(name) is None,
    ensures
        filter_fault(c) is None,
{
}

/// A collector can be made of every one that a valid configuration names.
pub proof fn loaded_collectors_compile(c: Config, i: int)
    requires
        c.resolved_fault() is None,
        0 <= i < c.metrics.collectors@.len(),
    ensures
        c.metrics.collectors@[i].1 matches CollectorConfig::Unix(u) ==> filter_fault(u) is None,
{
    each_is_valid(c.metrics.collectors@, i);
    match c.metrics.collectors@[i].1 {
        CollectorConfig::Unix(u) => {
            valid_configuration_compiles(u, c.metrics.collectors@[i].0@);
        },
        _ => {},
    }
}

proof fn each_is_valid(c: Seq<(String, CollectorConfig)>, i: int)
    requires
        config::resolved_collectors_fault(c) is None,
        0 <= i < c.len(),
    ensures
        c[i].1.resolved_fault(c[i].0@) is None,
    decreases c.len(),
{
    if i < c.len() - 1 {
        each_is_valid(c.drop_last(), i);
    }
}

/// The names that a valid configuration may have are those of the parts: each of them runs.
pub proof fn valid_names_run(name: Seq<char>)
    ensures
        config::sub_collectors().contains(name) <==> sub_named(name) is Some,
{
    let s = config::sub_collectors();
    assert(s[0] == "cpu"@ && s[1] == "memory"@ && s[2] == "disk"@ && s[3] == "filesystem"@);
    assert(s[4] == "md"@ && s[5] == "hwmon"@ && s[6] == "netdev"@ && s[7] == "loadavg"@);
    assert(s[8] == "uname"@);
}

/// Every part is found by its own name.
pub proof fn parts_are_found_by_their_names(s: Sub)
    ensures
        sub_named(s.called()) == Some(s),
        sub_named("cpu"@) == Some(Sub::Cpu),
        sub_named("memory"@) == Some(Sub::Memory),
        sub_named("disk"@) == Some(Sub::Disk),
        sub_named("filesystem"@) == Some(Sub::Filesystem),
        sub_named("md"@) == Some(Sub::Md),
        sub_named("hwmon"@) == Some(Sub::Hwmon),
        sub_named("netdev"@) == Some(Sub::Netdev),
        sub_named("loadavg"@) == Some(Sub::Loadavg),
        sub_named("uname"@) == Some(Sub::Uname),
{
    reveal_strlit("cpu");
    reveal_strlit("memory");
    reveal_strlit("disk");
    reveal_strlit("filesystem");
    reveal_strlit("md");
    reveal_strlit("hwmon");
    reveal_strlit("netdev");
    reveal_strlit("loadavg");
    reveal_strlit("uname");
    assert("cpu"@.len() == 3);
    assert("memory"@.len() == 6);
    assert("disk"@.len() == 4);
    assert("filesystem"@.len() == 10);
    assert("md"@.len() == 2);
    assert("hwmon"@.len() == 5);
    assert("netdev"@.len() == 6);
    assert("loadavg"@.len() == 7);
    assert("uname"@.len() == 5);
    assert("memory"@[0] == 'm');
    assert("netdev"@[0] == 'n');
    assert("hwmon"@[0] == 'h');
    assert("uname"@[0] == 'u');
}

/// The parts that run are those of the names, in the order of the names; a name that is none is
/// passed over.
pub proof fn named_parts_run_in_order(names: Seq<Seq<char>>, name: Seq<char>)
    ensures
        planned(Seq::empty()) == Seq::<Sub>::empty(),
        match sub_named(name) {
            Some(s) => planned(names.push(name)) == planned(names).push(s),
            None => planned(names.push(name)) == planned(names),
        },
{
    assert(names.push(name).drop_last() =~= names);
}

/// What a part found is reported as that part reports it, and filtered by its own filter: disks by
/// that of the disks, interfaces by that of the network, chips by that of the sensors, and nothing
/// else by any.
pub proof fn every_part_reports_what_it_found(g: Gathered, f: Filters)
    ensures
        g matches Gathered::Cpu { cpus, ticks_per_second } ==> readings_of(g, f) == Ok::<
            Seq<ReadingView>,
            Seq<char>,
        >(cpu::cpus_readings(cpus@, ticks_per_second)),
        g matches Gathered::Memory(m) ==> readings_of(g, f) == Ok::<Seq<ReadingView>, Seq<char>>(
            reading::figured(memory::memory_figures(m), Map::empty()),
        ),
        g matches Gathered::Disk(d) ==> readings_of(g, f) == Ok::<Seq<ReadingView>, Seq<char>>(
            disk::disks_readings(d@, f.disk),
        ),
        g matches Gathered::Filesystem(m) ==> readings_of(g, f) == Ok::<
            Seq<ReadingView>,
            Seq<char>,
        >(filesystem::mounts_readings(m@)),
        g matches Gathered::Md(a) ==> readings_of(g, f) == Ok::<Seq<ReadingView>, Seq<char>>(
            md::arrays_readings(a@),
        ),
        g matches Gathered::Hwmon { chips, blocks } ==> readings_of(g, f) == Ok::<
            Seq<ReadingView>,
            Seq<char>,
        >(hwmon::chips_readings(chips@, blocks@, f.hwmon)),
        g matches Gathered::Netdev(d) ==> readings_of(g, f) == Ok::<Seq<ReadingView>, Seq<char>>(
            netdev::devices_readings(d@, f.net),
        ),
        g matches Gathered::Loadavg(l) ==> readings_of(g, f) == Ok::<Seq<ReadingView>, Seq<char>>(
            reading::figured(loadavg::load_figures(l), Map::empty()),
        ),
        g matches Gathered::Uname(s) ==> readings_of(g, f) == Ok::<Seq<ReadingView>, Seq<char>>(
            seq![uname::system_reading(s)],
        ),
        g matches Gathered::Failed { sub, error } ==> readings_of(g, f) == Err::<
            Seq<ReadingView>,
            Seq<char>,
        >(sub.called() + seq![':', ' '] + error@),
        readings_of(g, f) is Err <==> g is Failed,
{
    reveal_strlit(": ");
    assert(": "@ =~= seq![':', ' ']);
}

/// Where no part failed, everything that any part reports is reported, one part after the other;
/// where one failed, nothing is, and the first failure is named.
pub proof fn all_parts_or_none_are_reported(g: Seq<Gathered>, f: Filters, i: int)
    requires
        0 <= i <= g.len(),
        forall|k: int| 0 <= k < i ==> !(#[trigger] g[k] is Failed),
        i < g.len() ==> g[i] is Failed,
    ensures
        i == g.len() ==> all_readings(g, f) == Ok::<Seq<ReadingView>, Seq<char>>(
            reading::chained(Seq::new(g.len(), |k: int| readings_of(g[k], f)->Ok_0)),
        ),
        i < g.len() ==> all_readings(g, f) == readings_of(g[i], f),
    decreases g.len(),
{
    let lists = Seq::new(g.len(), |k: int| readings_of(g[k], f)->Ok_0);
    if g.len() > 0 {
        let h = g.drop_last();
        assert(forall|k: int| 0 <= k < h.len() ==> #[trigger] h[k] == g[k]);
        assert(g.last() == g[g.len() - 1]);
        every_part_reports_what_it_found(g.last(), f);
        if i == g.len() {
            all_parts_or_none_are_reported(h, f, i - 1);
            assert(lists.drop_last() =~= Seq::new(h.len(), |k: int| readings_of(h[k], f)->Ok_0));
            assert(!(g[g.len() - 1] is Failed));
        } else {
            if i < h.len() {
                assert(h[i] == g[i]);
            }
            all_parts_or_none_are_reported(h, f, i);
        }
    } else {
        assert(reading::chained(lists) =~= Seq::empty());
    }
}

/// Each filter is compiled from its own setting.
pub proof fn filters_are_those_of_their_settings(f: Filters, c: UnixCollectorConfig)
    requires
        filters_of(f, c),
    ensures
        pattern::compiled(c.disk_devices@) == Ok::<Set<Seq<char>>, Seq<char>>(f.disk),
        pattern::compiled(c.net_devices@) == Ok::<Set<Seq<char>>, Seq<char>>(f.net),
        pattern::compiled(c.filesystem_mount_points@) == Ok::<Set<Seq<char>>, Seq<char>>(f.mount),
        pattern::compiled(c.filesystem_fs_types@) == Ok::<Set<Seq<char>>, Seq<char>>(f.fs_type),
        pattern::compiled(c.hwmon_chips@) == Ok::<Set<Seq<char>>, Seq<char>>(f.hwmon),
{
}

/// A collector can be made where all of its expressions compile, and nowhere else; the first that
/// does not is named.
pub proof fn a_collector_needs_its_expressions(c: UnixCollectorConfig)
    ensures
        filter_fault(c) is None <==> pattern::compiled(c.disk_devices@) is Ok && pattern::compiled(
            c.net_devices@,
        ) is Ok && pattern::compiled(c.filesystem_mount_points@) is Ok && pattern::compiled(
            c.filesystem_fs_types@,
        ) is Ok && pattern::compiled(c.hwmon_chips@) is Ok,
        pattern::compiled(c.disk_devices@) matches Err(e) ==> filter_fault(c) == Some(
            "invalid disk-devices regex: "@ + e,
        ),
        pattern::compiled(c.disk_devices@) is Ok ==> (pattern::compiled(c.net_devices@) matches Err(
            e,
        ) ==> filter_fault(c) == Some("invalid net-devices regex: "@ + e)),
        pattern::compiled(c.disk_devices@) is Ok && pattern::compiled(c.net_devices@) is Ok ==> (
        pattern::compiled(c.filesystem_mount_points@) matches Err(e) ==> filter_fault(c) == Some(
            "invalid filesystem-mount-points regex: "@ + e,
        )),
        pattern::compiled(c.disk_devices@) is Ok && pattern::compiled(c.net_devices@) is Ok
            && pattern::compiled(c.filesystem_mount_points@) is Ok ==> (pattern::compiled(
            c.filesystem_fs_types@,
        ) matches Err(e) ==> filter_fault(c) == Some("invalid filesystem-fs-types regex: "@ + e)),
        pattern::compiled(c.disk_devices@) is Ok && pattern::compiled(c.net_devices@) is Ok
            && pattern::compiled(c.filesystem_mount_points@) is Ok && pattern::compiled(
            c.filesystem_fs_types@,
        ) is Ok ==> (pattern::compiled(c.hwmon_chips@) matches Err(e) ==> filter_fault(c) == Some(
            "invalid hwmon-chips regex: "@ + e,
        )),
{
    let none = Seq::<char>::empty();
    assert(none + "invalid disk-devices regex: "@ =~= "invalid disk-devices regex: "@);
    assert(none + "invalid net-devices regex: "@ =~= "invalid net-devices regex: "@);
    assert(none + "invalid filesystem-mount-points regex: "@
        =~= "invalid filesystem-mount-points regex: "@);
    assert(none + "invalid filesystem-fs-types regex: "@
        =~= "invalid filesystem-fs-types regex: "@);
    assert(none + "invalid hwmon-chips regex: "@ =~= "invalid hwmon-chips regex: "@);
}

} // verus!
