use ferrometer::collector::reading::Reading;
use ferrometer::collector::unix::hwmon::{
    chip_name, collect, collect_chip, disk_of, is_temp_sentinel, metric_name, sanitize, sensor_type, split_attr,
    Attribute, BlockDevice, ChipFiles, SensorType, TEMP_SENTINELS,
};
use ferrometer::signal::{MetricType, Value};

fn stype(prefix: &str) -> SensorType {
    sensor_type(&format!("{prefix}1")).unwrap()
}

fn pair(a: &str, b: &str) -> Option<(String, String)> {
    Some((a.to_string(), b.to_string()))
}

fn label(r: &Reading, name: &str) -> Option<String> {
    r.labels.get(&name.to_string()).cloned()
}

fn attribute(file: &str, content: &str, number: Option<f64>) -> Attribute {
    Attribute {
        file: file.to_string(),
        content: Some(content.to_string()),
        number: number.map(f64::to_bits),
    }
}

fn block(name: &str, device: &str) -> BlockDevice {
    BlockDevice { name: name.to_string(), device: device.to_string() }
}

fn nvme(attributes: Vec<Attribute>) -> ChipFiles {
    ChipFiles {
        dir: "/sys/class/hwmon/hwmon1".to_string(),
        device: Some("/sys/devices/pci0000:00/0000:00:06.0/nvme/nvme0".to_string()),
        name: Some("nvme\n".to_string()),
        attributes,
    }
}

#[test]
fn attribute_splitting() {
    assert_eq!(split_attr("temp1_input"), pair("temp1", "input"));
    assert_eq!(split_attr("temp1_crit_alarm"), pair("temp1", "crit_alarm"));
    assert_eq!(split_attr("name"), None);
    assert_eq!(split_attr("temp1_"), None);
}

#[test]
fn sensor_classes() {
    assert_eq!(sensor_type("temp1").map(|t| t.prefix), Some("temp"));
    assert_eq!(sensor_type("in0").map(|t| t.prefix), Some("in"));
    assert_eq!(sensor_type("energy1").map(|t| t.prefix), Some("energy"));
    // Not sensor readings: no index, or a different attribute that merely
    // starts with a class prefix.
    assert!(sensor_type("intrusion0").is_none());
    assert!(sensor_type("temp").is_none());
    assert!(sensor_type("pwm1").is_none());
}

#[test]
fn metric_names() {
    assert_eq!(metric_name(&stype("temp"), "input", true), "node_hwmon_temp_celsius");
    assert_eq!(metric_name(&stype("temp"), "crit", true), "node_hwmon_temp_crit_celsius");
    assert_eq!(metric_name(&stype("temp"), "crit_alarm", false), "node_hwmon_temp_crit_alarm");
    assert_eq!(metric_name(&stype("fan"), "input", true), "node_hwmon_fan_rpm");
    assert_eq!(metric_name(&stype("fan"), "min", true), "node_hwmon_fan_min_rpm");
    assert_eq!(metric_name(&stype("humidity"), "input", true), "node_hwmon_humidity");
    assert_eq!(metric_name(&stype("energy"), "input", true), "node_hwmon_energy_joule_total");
}

#[test]
fn unset_nvme_temperature_limits_are_sentinels() {
    // 0 K and 65535 K, as the nvme driver reports an unconfigured limit.
    assert!(TEMP_SENTINELS.contains(&(-273_150.0f64).to_bits()));
    assert!(TEMP_SENTINELS.contains(&65_261_850.0f64.to_bits()));
    // A real limit nearby must survive.
    assert!(!TEMP_SENTINELS.contains(&81_850.0f64.to_bits()));
    assert!(is_temp_sentinel((-273_150.0f64).to_bits()));
    assert!(is_temp_sentinel(65_261_850.0f64.to_bits()));
    assert!(!is_temp_sentinel(81_850.0f64.to_bits()));
}

#[test]
fn chip_names_prefer_the_device_over_the_hwmon_index() {
    assert_eq!(
        chip_name(
            "/sys/class/hwmon/hwmon1",
            Some("/sys/devices/pci0000:00/0000:00:06.0/nvme/nvme0"),
            None,
        ),
        "nvme_nvme0"
    );
    assert_eq!(
        chip_name("/sys/class/hwmon/hwmon8", Some("/sys/devices/platform/coretemp.0"), None),
        "platform_coretemp_0"
    );
}

#[test]
fn chip_names_fall_back_to_the_driver_and_then_to_the_directory() {
    assert_eq!(chip_name("/sys/class/hwmon/hwmon2", None, Some(" acpi-tz\n")), "acpi_tz");
    assert_eq!(chip_name("/sys/class/hwmon/hwmon2", Some("/"), Some("k10temp")), "k10temp");
    assert_eq!(chip_name("/sys/class/hwmon/hwmon2", Some("/dev"), None), "dev");
    assert_eq!(chip_name("/sys/class/hwmon/hwmon2", None, None), "hwmon2");
    assert_eq!(sanitize("0000:00:06.0"), "0000_00_06_0");
}

#[test]
fn only_an_unambiguous_disk_is_named() {
    let blocks = vec![block("nvme0n1", "/a/nvme0"), block("sda", "/a/b"), block("sdb", "/a/b")];
    assert_eq!(disk_of(&blocks, Some("/a/nvme0")), Some("nvme0n1".to_string()));
    assert_eq!(disk_of(&blocks, Some("/a/b")), None);
    assert_eq!(disk_of(&blocks, Some("/a/c")), None);
    assert_eq!(disk_of(&blocks, None), None);
}

#[test]
fn a_chip_reports_its_sensors() {
    let chips = vec![nvme(vec![
        attribute("temp1_input", "42850", Some(42850.0)),
        attribute("temp1_label", "Composite\n", None),
        attribute("temp1_max", "65261850", Some(65_261_850.0)),
        attribute("temp1_alarm", "0", Some(0.0)),
        attribute("temp1_hyst", "1", Some(1.0)),
        attribute("energy1_input", "5000000", Some(5_000_000.0)),
        attribute("energy1_max", "1", Some(1.0)),
        attribute("uevent", "", None),
        attribute("fan1_input", "broken", None),
    ])];
    let blocks = vec![block("nvme0n1", "/sys/devices/pci0000:00/0000:00:06.0/nvme/nvme0")];
    let all = regex::Regex::new("").unwrap();
    let r = collect(&chips, &blocks, &all);
    let names: Vec<&str> = r.iter().map(|x| x.name.as_str()).collect();
    assert_eq!(
        names,
        vec![
            "node_hwmon_chip_names",
            "node_hwmon_temp_celsius",
            "node_hwmon_sensor_label",
            "node_hwmon_temp_alarm",
            "node_hwmon_energy_joule_total",
            "node_hwmon_energy_max_joule",
        ]
    );
    assert_eq!(label(&r[0], "chip_name"), Some("nvme".to_string()));
    assert_eq!(label(&r[1], "chip"), Some("nvme_nvme0".to_string()));
    assert_eq!(label(&r[1], "disk"), Some("nvme0n1".to_string()));
    assert_eq!(label(&r[1], "sensor"), Some("temp1".to_string()));
    assert_eq!(r[1].value, Value::Float { bits: 42850.0f64.to_bits(), divisor: 1000 });
    assert_eq!(label(&r[2], "label"), Some("Composite".to_string()));
    assert_eq!(r[3].value, Value::Float { bits: 0, divisor: 1 });
    assert_eq!(r[4].metric_type, MetricType::Counter);
    assert_eq!(r[4].value, Value::Float { bits: 5_000_000.0f64.to_bits(), divisor: 1_000_000 });
    assert_eq!(r[5].metric_type, MetricType::Gauge);
}

#[test]
fn the_filter_goes_by_the_chip() {
    let chips = vec![nvme(vec![attribute("temp1_input", "1", Some(1.0))])];
    let some = regex::Regex::new("^nvme").unwrap();
    let none = regex::Regex::new("^coretemp").unwrap();
    assert_eq!(collect(&chips, &vec![], &some).len(), 2);
    assert_eq!(collect(&chips, &vec![], &none).len(), 0);
}

#[test]
fn the_filter_goes_by_the_driver_too() {
    let drive = ChipFiles {
        dir: "/sys/class/hwmon/hwmon3".to_string(),
        device: Some("/sys/devices/pci0000:00/0000:00:17.0/ata1/host0/0:0:0:0".to_string()),
        name: Some("drivetemp\n".to_string()),
        attributes: vec![],
    };
    let some = regex::Regex::new("^drivetemp$").unwrap();
    let none = regex::Regex::new("^nvme").unwrap();
    let r = collect_chip(&drive, &vec![], &some);
    assert_eq!(r.len(), 1);
    assert_eq!(label(&r[0], "chip_name"), Some("drivetemp".to_string()));
    assert!(collect_chip(&drive, &vec![], &none).is_empty());
    let unnamed = ChipFiles { name: None, ..drive };
    assert!(collect_chip(&unnamed, &vec![], &some).is_empty());
}
