use ferrometer::collector::reading::Reading;
use ferrometer::collector::unix::cpu::{self, CpuFiles};
use ferrometer::collector::unix::disk::{self, DiskStat};
use ferrometer::collector::unix::filesystem::{
    self, dedupe, is_candidate, is_more_canonical, is_pseudo, select, FsStat, MeasuredMount, Mount,
};
use ferrometer::collector::unix::loadavg::{self, LoadAverage};
use ferrometer::collector::unix::memory::{self, MemoryStat};
use ferrometer::collector::unix::netdev::{self, NetDevice};
use ferrometer::collector::unix::uname::{self, SystemName};
use ferrometer::collector::unix::{sub_of, Gathered, Sub, UnixCollector};
use ferrometer::config::{default_unix_collectors, UnixCollectorConfig};
use ferrometer::labels::one_label;
use ferrometer::signal::{MetricType, NamePool, Value};
use ferrometer::time::{Duration, Timestamp};

fn text(s: &str) -> Option<String> {
    Some(format!("{s}\n"))
}

fn label(r: &Reading, name: &str) -> Option<String> {
    r.labels.get(&name.to_string()).cloned()
}

fn find<'a>(r: &'a [Reading], name: &str) -> Vec<&'a Reading> {
    r.iter().filter(|x| x.name == name).collect()
}

fn re(s: &str) -> regex::Regex {
    regex::Regex::new(s).unwrap()
}

fn cpu(package: Option<&str>) -> CpuFiles {
    CpuFiles {
        user: 100,
        nice: 1,
        system: 2,
        idle: 3,
        iowait: None,
        irq: Some(4),
        softirq: Some(5),
        steal: None,
        package: package.and_then(text),
        scaling_cur_freq: text("800000"),
        scaling_min_freq: None,
        scaling_max_freq: text("x"),
        cpuinfo_min_freq: None,
        cpuinfo_max_freq: text("3000000"),
        scaling_governor: text("powersave"),
        core_throttle_count: text("7"),
        package_throttle_count: text("9"),
    }
}

fn mount(majmin: &str, root: &str, point: &str, fs_type: &str) -> Mount {
    Mount {
        majmin: majmin.to_string(),
        root: root.to_string(),
        mount_point: point.to_string(),
        source: Some(format!("/dev/{majmin}")),
        fs_type: fs_type.to_string(),
    }
}

fn points(m: &[Mount]) -> Vec<&str> {
    m.iter().map(|x| x.mount_point.as_str()).collect()
}

fn config() -> UnixCollectorConfig {
    UnixCollectorConfig {
        interval: Duration::from_secs(15),
        max_runtime: Duration::from_secs(5),
        disk_devices: "^sd".to_string(),
        net_devices: "^eth".to_string(),
        filesystem_mount_points: String::new(),
        filesystem_fs_types: String::new(),
        filesystem_dedupe_devices: true,
        hwmon_chips: String::new(),
        collectors: default_unix_collectors(),
        static_labels: one_label("host", "h"),
    }
}

fn load() -> Gathered {
    Gathered::Loadavg(LoadAverage {
        one: 0.5f64.to_bits(),
        five: 0.25f64.to_bits(),
        fifteen: 0.125f64.to_bits(),
    })
}

#[test]
fn processors_report_times_frequencies_and_throttles() {
    let r = cpu::collect(&vec![cpu(Some("0")), cpu(Some("0")), cpu(None)], 100);
    let times = find(&r, "node_cpu_seconds_total");
    assert_eq!(times.len(), 24);
    assert_eq!(times[0].value, Value::Ratio { num: 100, den: 100 });
    assert_eq!(label(times[0], "mode"), Some("user".to_string()));
    assert_eq!(times[4].value, Value::Ratio { num: 0, den: 100 });
    assert_eq!(label(times[4], "mode"), Some("iowait".to_string()));
    assert_eq!(label(times[8], "cpu"), Some("1".to_string()));
    assert_eq!(
        find(&r, "node_cpu_scaling_frequency_hertz")[0].value,
        Value::Product { left: 800_000, right: 1000 }
    );
    assert!(find(&r, "node_cpu_scaling_frequency_max_hertz").is_empty());
    assert_eq!(find(&r, "node_cpu_frequency_max_hertz").len(), 3);
    assert_eq!(
        label(find(&r, "node_cpu_scaling_governor")[0], "governor"),
        Some("powersave".to_string())
    );
    let cores = find(&r, "node_cpu_core_throttles_total");
    assert_eq!(cores.len(), 3);
    assert_eq!(label(cores[0], "package"), Some("0".to_string()));
    assert_eq!(label(cores[2], "package"), None);
}

#[test]
fn a_package_is_reported_by_its_first_processor() {
    let cpus = vec![cpu(Some("0")), cpu(Some("1")), cpu(Some("0"))];
    let r = cpu::collect(&cpus, 100);
    let packages: Vec<Option<String>> =
        find(&r, "node_cpu_package_throttles_total").iter().map(|x| label(x, "package")).collect();
    assert_eq!(packages, vec![Some("0".to_string()), Some("1".to_string())]);
}

#[test]
fn disks_report_what_the_kernel_counts() {
    let d = |name: &str, flushes: Option<u64>| DiskStat {
        name: name.to_string(),
        reads: 1,
        sectors_read: 2,
        time_reading: 3,
        writes: 4,
        sectors_written: 5,
        time_writing: 6,
        in_progress: 7,
        time_in_progress: 8,
        discards: Some(9),
        sectors_discarded: Some(10),
        time_discarding: Some(11),
        flushes,
        time_flushing: flushes,
    };
    assert_eq!(disk::collect_disk(&d("loop0", None)).len(), 11);
    let r = disk::collect(&vec![d("sda", Some(12)), d("loop0", None), d("sdb", None)], &re("^sd"));
    assert_eq!(r.len(), 13 + 11);
    assert_eq!(r[1].name, "node_disk_read_bytes_total");
    assert_eq!(r[1].value, Value::Product { left: 2, right: 512 });
    assert_eq!(r[2].value, Value::Ratio { num: 3, den: 1000 });
    assert_eq!(r[6].name, "node_disk_io_now");
    assert_eq!(r[6].metric_type, MetricType::Gauge);
    assert_eq!(r[7].metric_type, MetricType::Counter);
    assert_eq!(r[12].name, "node_disk_flush_requests_time_seconds_total");
    assert_eq!(label(&r[13], "device"), Some("sdb".to_string()));
}

#[test]
fn memory_is_reported_in_bytes() {
    let m = MemoryStat {
        mem_total: 100,
        mem_free: 50,
        mem_available: None,
        buffers: 1,
        cached: 2,
        dirty: 3,
        swap_total: 4,
        swap_free: 5,
        swap_cached: 6,
        shmem: Some(7),
        s_reclaimable: None,
        s_unreclaim: Some(8),
    };
    let r = memory::collect(&m);
    assert_eq!(r.len(), 10);
    assert_eq!(r[0].name, "node_memory_MemTotal_bytes");
    assert_eq!(r[0].value, Value::Whole(100));
    assert_eq!(r[4].name, "node_memory_Dirty_bytes");
    assert!(find(&r, "node_memory_MemAvailable_bytes").is_empty());
    assert_eq!(r[0].labels.len(), 0);
}

#[test]
fn interfaces_are_filtered() {
    let d = |name: &str| NetDevice {
        name: name.to_string(),
        recv_bytes: 1,
        recv_packets: 2,
        recv_errs: 3,
        recv_drop: 4,
        recv_fifo: 5,
        recv_frame: 6,
        sent_bytes: 7,
        sent_packets: 8,
        sent_errs: 9,
        sent_drop: 10,
        sent_fifo: 11,
        sent_colls: 12,
        sent_carrier: 13,
    };
    assert_eq!(netdev::collect_device(&d("lo")).len(), 13);
    let r = netdev::collect(&vec![d("lo"), d("eth0")], &re("^(eth|en|wl|bond)"));
    assert_eq!(r.len(), 13);
    assert_eq!(r[12].name, "node_network_transmit_carrier_total");
    assert_eq!(r[12].value, Value::Whole(13));
    assert_eq!(label(&r[0], "device"), Some("eth0".to_string()));
}

#[test]
fn load_and_names_are_reported() {
    let r = loadavg::collect(LoadAverage { one: 1, five: 2, fifteen: 3 });
    assert_eq!(r[2].name, "node_load15");
    assert_eq!(r[2].value, Value::Float { bits: 3, divisor: 1 });
    let u = uname::collect(&SystemName {
        sysname: "Linux".to_string(),
        release: "6.1".to_string(),
        version: "#1".to_string(),
        machine: "x86_64".to_string(),
        nodename: "h".to_string(),
    });
    assert_eq!(u[0].name, "node_uname_info");
    assert_eq!(label(&u[0], "machine"), Some("x86_64".to_string()));
    assert_eq!(u[0].labels.len(), 5);
}

#[test]
fn pseudo_filesystems_are_never_reported() {
    let m = vec![
        mount("0:1", "/", "/proc", "proc"),
        mount("0:2", "/", "/run", "tmpfs"),
        mount("8:1", "/", "/", "ext4"),
        mount("8:2", "/", "/data", "xfs"),
    ];
    assert_eq!(points(&select(&m, &re(""), &re(""), true)), vec!["/", "/data"]);
    assert_eq!(points(&select(&m, &re("^/d"), &re(""), true)), vec!["/data"]);
    assert_eq!(points(&select(&m, &re(""), &re("^ext"), false)), vec!["/"]);
    assert!(is_pseudo("overlay"));
    assert!(!is_pseudo("btrfs"));
    assert!(is_candidate(&m[2], true, true));
    assert!(!is_candidate(&m[2], true, false));
    assert!(!is_candidate(&m[2], false, true));
    assert!(!is_candidate(&m[0], true, true));
}

#[test]
fn a_device_is_reported_by_its_most_canonical_mount() {
    let bind = mount("8:1", "/srv/x", "/a", "ext4");
    let home = mount("8:1", "/", "/home", "ext4");
    let boot = mount("8:1", "/", "/boot", "ext4");
    assert!(is_more_canonical(&home, &bind));
    assert!(is_more_canonical(&boot, &home));
    assert!(!is_more_canonical(&home, &boot));
    let all = re("");
    let m = vec![bind, home, boot];
    assert_eq!(points(&select(&m, &all, &all, true)), vec!["/boot"]);
    assert_eq!(points(&select(&m, &all, &all, false)), vec!["/a", "/home", "/boot"]);
    assert_eq!(points(&dedupe(&m)), vec!["/boot"]);
    let m = vec![
        mount("8:1", "/", "/boot", "ext4"),
        mount("8:1", "/srv/x", "/a", "ext4"),
        mount("8:1", "/", "/home", "ext4"),
    ];
    assert_eq!(points(&select(&m, &all, &all, true)), vec!["/boot"]);
}

#[test]
fn filesystems_report_their_figures() {
    let stat = FsStat {
        fragment_size: 4096,
        blocks: 10,
        blocks_free: 5,
        blocks_available: 4,
        files: 100,
        files_free: 60,
    };
    let mut bare = mount("8:3", "/", "/x", "ext4");
    bare.source = None;
    let r = filesystem::collect(&vec![
        MeasuredMount { mount: mount("8:1", "/", "/", "ext4"), stat: Some(stat) },
        MeasuredMount { mount: mount("8:2", "/", "/stale", "nfs"), stat: None },
        MeasuredMount { mount: bare, stat: Some(stat) },
    ]);
    assert_eq!(r.len(), 10);
    assert_eq!(r[0].name, "node_filesystem_size_bytes");
    assert_eq!(r[0].value, Value::Product { left: 10, right: 4096 });
    assert_eq!(r[2].value, Value::Product { left: 4, right: 4096 });
    assert_eq!(r[4].value, Value::Whole(60));
    assert_eq!(label(&r[0], "device"), Some("/dev/8:1".to_string()));
    assert_eq!(label(&r[0], "mountpoint"), Some("/".to_string()));
    assert_eq!(label(&r[5], "device"), Some(String::new()));
}

#[test]
fn the_collector_runs_its_parts_in_order() {
    let mut c = config();
    c.collectors = vec!["uname".to_string(), "gpu".to_string(), "loadavg".to_string()];
    let u = UnixCollector::new("system", &c).unwrap();
    assert_eq!(u.plan(), vec![Sub::Uname, Sub::Loadavg]);
    assert_eq!(u.name(), "system");
    assert_eq!(sub_of("hwmon"), Some(Sub::Hwmon));
    assert_eq!(sub_of("x"), None);
    for n in default_unix_collectors() {
        assert_eq!(sub_of(&n).unwrap().name(), n);
    }
}

#[test]
fn the_collector_adds_its_labels() {
    let mut u = UnixCollector::new("system", &config()).unwrap();
    let mut pool = NamePool::new();
    let now = Timestamp { nanos: 3 };
    let m = u.collect(&vec![load(), load()], &mut pool, now).unwrap();
    assert_eq!(m.len(), 6);
    assert_eq!(*m[5].name, "node_load15");
    assert_eq!(m[0].labels.get(&"host".to_string()), Some(&"h".to_string()));
    assert_eq!(m[0].timestamp, now);
}

#[test]
fn a_part_that_fails_fails_the_collection() {
    let mut u = UnixCollector::new("system", &config()).unwrap();
    let mut pool = NamePool::new();
    let g = vec![load(), Gathered::Failed { sub: Sub::Disk, error: "gone".to_string() }, load()];
    let e = u.collect(&g, &mut pool, Timestamp { nanos: 0 }).err().unwrap();
    assert_eq!(e.message(), "collector error: disk: gone");
}

#[test]
fn the_collector_needs_expressions_that_compile() {
    let mut c = config();
    c.hwmon_chips = "[".to_string();
    let e = UnixCollector::new("system", &c).err().unwrap();
    assert!(e.message().starts_with("config error: invalid hwmon-chips regex: "));
    c.disk_devices = "[".to_string();
    let e = UnixCollector::new("system", &c).err().unwrap();
    assert!(e.message().starts_with("config error: invalid disk-devices regex: "));
}

#[test]
fn the_collector_selects_mounts_by_its_filters() {
    let u = UnixCollector::new("system", &config()).unwrap();
    let m = vec![mount("8:1", "/x", "/b", "ext4"), mount("8:1", "/", "/a", "ext4")];
    assert_eq!(points(&u.select_mounts(&m)), vec!["/a"]);
}
