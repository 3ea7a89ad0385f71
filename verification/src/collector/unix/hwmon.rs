//! Hardware sensors: what the files under `/sys/class/hwmon` say of a chip.
//!
//! Metric names are `node_hwmon_<type>[_<property>][_<unit>]`. A chip that belongs to
//! exactly one block device carries the name of that disk as a label.
use vstd::prelude::*;

use crate::collector::reading::{self, Reading, ReadingView};
use crate::collector::unix::sysfs;
use crate::labels::{self, LabelMap, Labels};
use crate::number;
use crate::path;
use crate::pattern;
use crate::signal::{MetricType, Value};
use crate::text;

verus! {

/// A class of sensors: the prefix of its files, the divisor that takes the integer of
/// the kernel to the base unit, and the name of that unit, which is empty where the
/// metric name carries none.
pub struct SensorType {
    pub prefix: &'static str,
    pub scale: u64,
    pub unit: &'static str,
    pub counter: bool,
}

/// The classes of sensors, by their position.
pub open spec fn class(i: int) -> (Seq<char>, u64, Seq<char>, bool) {
    if i == 0 {
        ("temp"@, 1000, "celsius"@, false)
    } else if i == 1 {
        ("fan"@, 1, "rpm"@, false)
    } else if i == 2 {
        ("in"@, 1000, "volts"@, false)
    } else if i == 3 {
        ("curr"@, 1000, "amps"@, false)
    } else if i == 4 {
        ("power"@, 1_000_000, "watt"@, false)
    } else if i == 5 {
        ("energy"@, 1_000_000, "joule"@, true)
    } else {
        ("humidity"@, 1, ""@, false)
    }
}

impl SensorType {
    /// What the class says.
    pub open spec fn said(self) -> (Seq<char>, u64, Seq<char>, bool) {
        (self.prefix@, self.scale, self.unit@, self.counter)
    }
}

/// The class at a position.
fn class_at(i: usize) -> (t: SensorType)
    requires
        i < 7,
    ensures
        t.said() == class(i as int),
{
    if i == 0 {
        SensorType { prefix: "temp", scale: 1000, unit: "celsius", counter: false }
    } else if i == 1 {
        SensorType { prefix: "fan", scale: 1, unit: "rpm", counter: false }
    } else if i == 2 {
        SensorType { prefix: "in", scale: 1000, unit: "volts", counter: false }
    } else if i == 3 {
        SensorType { prefix: "curr", scale: 1000, unit: "amps", counter: false }
    } else if i == 4 {
        SensorType { prefix: "power", scale: 1_000_000, unit: "watt", counter: false }
    } else if i == 5 {
        SensorType { prefix: "energy", scale: 1_000_000, unit: "joule", counter: true }
    } else {
        SensorType { prefix: "humidity", scale: 1, unit: "", counter: false }
    }
}

/// A sensor belongs to a class: its name is the prefix of the class and an index.
pub open spec fn of_class(sensor: Seq<char>, i: int) -> bool {
    &&& text::begins(sensor, class(i).0)
    &&& sensor.len() > class(i).0.len()
    &&& number::all_digits(sensor.skip(class(i).0.len() as int))
}

/// The first class, from a position on, that a sensor belongs to.
pub open spec fn class_from(sensor: Seq<char>, i: int) -> Option<int>
    decreases 7 - i,
{
    if i < 0 || i >= 7 {
        None
    } else if of_class(sensor, i) {
        Some(i)
    } else {
        class_from(sensor, i + 1)
    }
}

/// The class that a sensor belongs to.
pub open spec fn class_of(sensor: Seq<char>) -> Option<int> {
    class_from(sensor, 0)
}

fn digits_only(s: &str) -> (r: bool)
    ensures
        r == number::all_digits(s@),
{
    let v = text::chars_of(s);
    let mut i: usize = 0;
    while i < v.len()
        invariant
            i <= v@.len(),
            v@ == s@,
            forall|k: int| 0 <= k < i ==> number::is_digit(#[trigger] s@[k]),
        decreases v@.len() - i,
    {
        if !number::digit(v[i]) {
            assert(!number::is_digit(s@[i as int]));
            return false;
        }
        i = i + 1;
    }
    true
}

/// Finds the class of a sensor: `in0` is a voltage, `intrusion0` is nothing.
pub fn sensor_type(sensor: &str) -> (r: Option<SensorType>)
    ensures
        match r {
            Some(t) => class_of(sensor@) is Some && t.said() == class(class_of(sensor@)->0),
            None => class_of(sensor@) is None,
        },
{
    let mut i: usize = 0;
    while i < 7
        invariant
            i <= 7,
            class_of(sensor@) == class_from(sensor@, i as int),
        decreases 7 - i,
    {
        let t = class_at(i);
        match text::strip_prefix(sensor, t.prefix) {
            Some(index) => {
                if !index.as_str().is_empty() && digits_only(index.as_str()) {
                    return Some(t);
                }
            },
            None => {},
        }
        i = i + 1;
    }
    None
}

/// Splits the name of a file into sensor and property; a property is not empty.
pub open spec fn attribute(file: Seq<char>) -> Option<(Seq<char>, Seq<char>)> {
    match text::cut(file, '_') {
        Some((sensor, property)) => if property.len() > 0 {
            Some((sensor, property))
        } else {
            None
        },
        None => None,
    }
}

/// Splits the name of a file such as `temp1_crit_alarm` into its sensor (`temp1`) and
/// its property (`crit_alarm`).
pub fn split_attr(file: &str) -> (r: Option<(String, String)>)
    ensures
        match r {
            Some((s, p)) => attribute(file@) == Some((s@, p@)),
            None => attribute(file@) is None,
        },
{
    match text::split_once(file, '_') {
        Some((sensor, property)) => {
            if property.as_str().is_empty() {
                None
            } else {
                Some((sensor, property))
            }
        },
        None => None,
    }
}

/// A character of a chip label: letters and digits stay, anything else is an underscore.
pub open spec fn clean_char(c: char) -> char {
    if '0' <= c <= '9' || 'a' <= c <= 'z' || 'A' <= c <= 'Z' {
        c
    } else {
        '_'
    }
}

/// A name as a chip label.
pub open spec fn cleaned(s: Seq<char>) -> Seq<char> {
    s.map_values(|c: char| clean_char(c))
}

/// Folds everything but ASCII letters and digits into underscores.
pub fn sanitize(name: &str) -> (r: String)
    ensures
        r@ == cleaned(name@),
{
    let v = text::chars_of(name);
    let mut out = String::new();
    let mut i: usize = 0;
    while i < v.len()
        invariant
            i <= v@.len(),
            v@ == name@,
            out@ == cleaned(name@.take(i as int)),
        decreases v@.len() - i,
    {
        let c = v[i];
        let d = if ('0' <= c && c <= '9') || ('a' <= c && c <= 'z') || ('A' <= c && c <= 'Z') {
            c
        } else {
            '_'
        };
        out.push(d);
        assert(cleaned(name@.take(i + 1)) =~= cleaned(name@.take(i as int)).push(clean_char(c)));
        i = i + 1;
    }
    assert(name@.take(i as int) =~= name@);
    out
}

/// The identity of a chip: the device that its sensors hang off, as `<bus>_<device>`,
/// else the name of its driver, else that of its directory.
pub open spec fn chip_label(
    dir: Seq<char>,
    device: Option<Seq<char>>,
    driver: Option<Seq<char>>,
) -> Seq<char> {
    let name = match device {
        Some(d) => path::file_name(d),
        None => None,
    };
    let bus = match device {
        Some(d) => path::parent_name(d),
        None => None,
    };
    match name {
        Some(name) => match bus {
            Some(bus) => cleaned(bus + "_"@ + name),
            None => cleaned(name),
        },
        None => match sysfs::said(driver) {
            Some(driver) => cleaned(driver),
            None => match path::file_name(dir) {
                Some(own) => cleaned(own),
                None => Seq::empty(),
            },
        },
    }
}

/// The identity of a chip. The numbers of the `hwmon` directories change with every
/// start of the system, so they are the last resort.
pub fn chip_name(dir: &str, device: Option<&str>, driver: Option<&str>) -> (r: String)
    ensures
        r@ == chip_label(dir@, sysfs::opt_str(device), sysfs::opt_str(driver)),
{
    match device {
        Some(d) => {
            let (name, bus) = path::last_names(d);
            match name {
                Some(name) => {
                    match bus {
                        Some(bus) => {
                            let joined = text::cat3(bus.as_str(), "_", name.as_str());
                            return sanitize(joined.as_str());
                        },
                        None => {
                            return sanitize(name.as_str());
                        },
                    }
                },
                None => {},
            }
        },
        None => {},
    }
    match driver {
        Some(content) => {
            let name = text::trim(content);
            return sanitize(name.as_str());
        },
        None => {},
    }
    let (own, _) = path::last_names(dir);
    match own {
        Some(own) => sanitize(own.as_str()),
        None => String::new(),
    }
}

// Readings

/// Temperatures that stand for a limit that is not set, by the bits of their
/// double-precision numbers of millidegrees: 0 K (-273150) and 65535 K (65261850). No
/// hardware has those.
pub const TEMP_SENTINELS: [u64; 2] = [0xc110_abf8_0000_0000, 0x418f_1e88_d000_0000];

/// A number stands for a limit that is not set.
pub open spec fn unset_limit(bits: u64) -> bool {
    bits == 0xc110_abf8_0000_0000 || bits == 0x418f_1e88_d000_0000
}

/// Whether a temperature, by the bits of its number of millidegrees, stands for a limit
/// that is not set.
pub fn is_temp_sentinel(bits: u64) -> (r: bool)
    ensures
        r == unset_limit(bits),
{
    bits == TEMP_SENTINELS[0] || bits == TEMP_SENTINELS[1]
}

/// The properties that are exported, and whether their values carry the unit of the
/// sensor: an alarm is a flag.
pub open spec fn carries_unit(property: Seq<char>) -> Option<bool> {
    if property == "input"@ || property == "min"@ || property == "max"@ || property == "crit"@ {
        Some(true)
    } else if property == "alarm"@ || property == "crit_alarm"@ {
        Some(false)
    } else {
        None
    }
}

fn property_scaled(property: &str) -> (r: Option<bool>)
    ensures
        r == carries_unit(property@),
{
    if text::same(property, "input") || text::same(property, "min") || text::same(property, "max")
        || text::same(property, "crit") {
        Some(true)
    } else if text::same(property, "alarm") || text::same(property, "crit_alarm") {
        Some(false)
    } else {
        None
    }
}

/// The name of a metric: `node_hwmon_temp_celsius`, `node_hwmon_temp_crit_celsius`,
/// `node_hwmon_temp_alarm`, `node_hwmon_energy_joule_total`.
pub open spec fn named(
    class: (Seq<char>, u64, Seq<char>, bool),
    property: Seq<char>,
    scaled: bool,
) -> Seq<char> {
    "node_hwmon_"@ + class.0 + (if property != "input"@ {
        "_"@ + property
    } else {
        Seq::empty()
    }) + (if scaled && class.2.len() > 0 {
        "_"@ + class.2
    } else {
        Seq::empty()
    }) + (if class.3 && property == "input"@ {
        "_total"@
    } else {
        Seq::empty()
    })
}

/// The name of the metric of a property of a sensor.
pub fn metric_name(sensor_type: &SensorType, property: &str, scaled: bool) -> (r: String)
    ensures
        r@ == named(sensor_type.said(), property@, scaled),
{
    let mut name = text::cat2("node_hwmon_", sensor_type.prefix);
    let input = text::same(property, "input");
    let ghost first = name@;
    if !input {
        let part = text::cat2("_", property);
        name.append(part.as_str());
    }
    assert(name@ =~= first + (if property@ != "input"@ {
        "_"@ + property@
    } else {
        Seq::empty()
    }));
    let ghost second = name@;
    if scaled && !sensor_type.unit.is_empty() {
        let part = text::cat2("_", sensor_type.unit);
        name.append(part.as_str());
    }
    assert(name@ =~= second + (if scaled && sensor_type.unit@.len() > 0 {
        "_"@ + sensor_type.unit@
    } else {
        Seq::empty()
    }));
    let ghost third = name@;
    if sensor_type.counter && input {
        name.append("_total");
    }
    assert(name@ =~= third + (if sensor_type.counter && property@ == "input"@ {
        "_total"@
    } else {
        Seq::empty()
    }));
    name
}

/// A file of a chip: its name, its contents, and the bits of the double-precision number
/// that it holds, where it could be read and holds one.
pub struct Attribute {
    pub file: String,
    pub content: Option<String>,
    pub number: Option<u64>,
}

/// The files of a chip: its directory, the device it belongs to, the name of its driver
/// and its attributes, as far as they could be read.
pub struct ChipFiles {
    pub dir: String,
    pub device: Option<String>,
    pub name: Option<String>,
    pub attributes: Vec<Attribute>,
}

/// A block device and the device that it belongs to.
pub struct BlockDevice {
    pub name: String,
    pub device: String,
}

/// The block devices that belong to a device.
pub open spec fn disks_of(blocks: Seq<BlockDevice>, device: Seq<char>) -> Seq<Seq<char>>
    decreases blocks.len(),
{
    if blocks.len() == 0 {
        Seq::empty()
    } else if blocks.last().device@ == device {
        disks_of(blocks.drop_last(), device).push(blocks.last().name@)
    } else {
        disks_of(blocks.drop_last(), device)
    }
}

/// The disk that the sensors of a device describe: the only one that belongs to it. A
/// controller with several disks is none of them.
pub open spec fn only_disk(blocks: Seq<BlockDevice>, device: Option<Seq<char>>) -> Option<Seq<char>> {
    match device {
        Some(d) => if disks_of(blocks, d).len() == 1 {
            Some(disks_of(blocks, d)[0])
        } else {
            None
        },
        None => None,
    }
}

/// Finds the disk that the sensors of a device describe.
pub fn disk_of(blocks: &Vec<BlockDevice>, device: Option<&str>) -> (r: Option<String>)
    ensures
        sysfs::opt(r) == only_disk(blocks@, sysfs::opt_str(device)),
{
    match device {
        None => None,
        Some(d) => {
            let mut names: Vec<String> = Vec::new();
            let mut i: usize = 0;
            assert(text::texts(names@) =~= disks_of(blocks@.take(0), d@));
            while i < blocks.len()
                invariant
                    i <= blocks@.len(),
                    text::texts(names@) == disks_of(blocks@.take(i as int), d@),
                decreases blocks@.len() - i,
            {
                assert(blocks@.take(i + 1).drop_last() =~= blocks@.take(i as int));
                assert(blocks@.take(i + 1).last() == blocks@[i as int]);
                if text::same(blocks[i].device.as_str(), d) {
                    let ghost before = text::texts(names@);
                    names.push(blocks[i].name.clone());
                    assert(text::texts(names@) =~= before.push(blocks@[i as int].name@));
                }
                i = i + 1;
            }
            assert(blocks@.take(i as int) =~= blocks@);
            if names.len() == 1 {
                assert(text::texts(names@)[0] == names@[0]@);
                Some(names[0].clone())
            } else {
                None
            }
        },
    }
}

/// The labels that every reading of a chip has.
pub open spec fn chip_labels(chip: Seq<char>, disk: Option<Seq<char>>) -> LabelMap {
    let l = Map::empty().insert("chip"@, chip);
    match disk {
        Some(d) => l.insert("disk"@, d),
        None => l,
    }
}

fn labels_of(chip: &str, disk: &Option<String>) -> (l: Labels)
    ensures
        l@ == chip_labels(chip@, sysfs::opt(*disk)),
{
    let mut l = labels::one_label("chip", chip);
    match disk {
        Some(d) => {
            labels::set_label(&mut l, "disk", d.as_str());
        },
        None => {},
    }
    l
}

/// The readings of one file of a chip: none, or one.
pub open spec fn attribute_readings(
    a: Attribute,
    chip: Seq<char>,
    disk: Option<Seq<char>>,
) -> Seq<ReadingView> {
    let labels = chip_labels(chip, disk);
    match attribute(a.file@) {
        None => Seq::empty(),
        Some((sensor, property)) => match class_of(sensor) {
            None => Seq::empty(),
            Some(i) => if property == "label"@ {
                match sysfs::said(sysfs::opt(a.content)) {
                    None => Seq::empty(),
                    Some(label) => seq![
                        reading::gauge_view(
                            "node_hwmon_sensor_label"@,
                            Value::Whole(1),
                            labels.insert("sensor"@, sensor).insert("label"@, label),
                        ),
                    ],
                }
            } else {
                match (carries_unit(property), a.number) {
                    (Some(scaled), Some(bits)) => if class(i).0 == "temp"@ && unset_limit(bits) {
                        Seq::empty()
                    } else {
                        let name = named(class(i), property, scaled);
                        let value = Value::Float {
                            bits,
                            divisor: if scaled {
                                class(i).1
                            } else {
                                1
                            },
                        };
                        let l = labels.insert("sensor"@, sensor);
                        if class(i).3 && property == "input"@ {
                            seq![reading::counter_view(name, value, l)]
                        } else {
                            seq![reading::gauge_view(name, value, l)]
                        }
                    },
                    _ => Seq::empty(),
                }
            },
        },
    }
}

fn collect_attribute(a: &Attribute, chip: &str, disk: &Option<String>) -> (r: Option<Reading>)
    ensures
        match r {
            Some(x) => attribute_readings(*a, chip@, sysfs::opt(*disk)) == seq![x@],
            None => attribute_readings(*a, chip@, sysfs::opt(*disk)) == Seq::<ReadingView>::empty(),
        },
{
    let (sensor, property) = match split_attr(a.file.as_str()) {
        Some(x) => x,
        None => {
            return None;
        },
    };
    let class = match sensor_type(sensor.as_str()) {
        Some(t) => t,
        None => {
            return None;
        },
    };
    let mut l = labels_of(chip, disk);
    if text::same(property.as_str(), "label") {
        return match sysfs::read_string(&a.content) {
            Some(label) => {
                labels::set_label(&mut l, "sensor", sensor.as_str());
                labels::set_label(&mut l, "label", label.as_str());
                Some(reading::gauge("node_hwmon_sensor_label", Value::Whole(1), l))
            },
            None => None,
        };
    }
    let scaled = match property_scaled(property.as_str()) {
        Some(s) => s,
        None => {
            return None;
        },
    };
    let bits: u64 = match a.number {
        Some(b) => b,
        None => {
            return None;
        },
    };
    if text::same(class.prefix, "temp") && is_temp_sentinel(bits) {
        return None;
    }
    let divisor: u64 = if scaled {
        class.scale
    } else {
        1
    };
    let value = Value::Float { bits, divisor };
    let name = metric_name(&class, property.as_str(), scaled);
    labels::set_label(&mut l, "sensor", sensor.as_str());
    if class.counter && text::same(property.as_str(), "input") {
        Some(reading::counter(name.as_str(), value, l))
    } else {
        Some(reading::gauge(name.as_str(), value, l))
    }
}

/// The readings of some files of a chip, one file after the other.
pub open spec fn attributes_readings(
    attributes: Seq<Attribute>,
    chip: Seq<char>,
    disk: Option<Seq<char>>,
) -> Seq<ReadingView>
    decreases attributes.len(),
{
    if attributes.len() == 0 {
        Seq::empty()
    } else {
        attributes_readings(attributes.drop_last(), chip, disk) + attribute_readings(
            attributes.last(),
            chip,
            disk,
        )
    }
}

/// The reading of the name that the driver gives a chip.
pub open spec fn driver_readings(
    name: Option<Seq<char>>,
    chip: Seq<char>,
    disk: Option<Seq<char>>,
) -> Seq<ReadingView> {
    match sysfs::said(name) {
        Some(n) => seq![
            reading::gauge_view(
                "node_hwmon_chip_names"@,
                Value::Whole(1),
                chip_labels(chip, disk).insert("chip_name"@, n),
            ),
        ],
        None => Seq::empty(),
    }
}

/// The identity of a chip.
pub open spec fn chip_identity(c: ChipFiles) -> Seq<char> {
    chip_label(c.dir@, sysfs::opt(c.device), sysfs::opt(c.name))
}

/// The readings of the sensors of a chip.
pub open spec fn sensor_readings(c: ChipFiles, blocks: Seq<BlockDevice>) -> Seq<ReadingView> {
    let chip = chip_identity(c);
    let disk = only_disk(blocks, sysfs::opt(c.device));
    driver_readings(sysfs::opt(c.name), chip, disk) + attributes_readings(
        c.attributes@,
        chip,
        disk,
    )
}

/// The filter matches a chip: its identity, or the name that its driver gives it.
pub open spec fn chosen(c: ChipFiles, filter: Set<Seq<char>>) -> bool {
    ||| filter.contains(chip_identity(c))
    ||| sysfs::said(sysfs::opt(c.name)) matches Some(name) && filter.contains(name)
}

/// The readings of one chip: none unless the filter matches it.
pub open spec fn chip_readings(
    c: ChipFiles,
    blocks: Seq<BlockDevice>,
    filter: Set<Seq<char>>,
) -> Seq<ReadingView> {
    if chosen(c, filter) {
        sensor_readings(c, blocks)
    } else {
        Seq::empty()
    }
}

fn borrowed(s: &Option<String>) -> (r: Option<&str>)
    ensures
        sysfs::opt_str(r) == sysfs::opt(*s),
{
    match s {
        Some(t) => Some(t.as_str()),
        None => None,
    }
}

fn is_chosen(c: &ChipFiles, filter: &regex::Regex) -> (r: bool)
    ensures
        r == chosen(*c, pattern::language(*filter)),
{
    let chip = chip_name(c.dir.as_str(), borrowed(&c.device), borrowed(&c.name));
    if pattern::is_match(filter, chip.as_str()) {
        return true;
    }
    match sysfs::read_string(&c.name) {
        Some(name) => pattern::is_match(filter, name.as_str()),
        None => false,
    }
}

/// The readings of one chip.
pub fn collect_chip(c: &ChipFiles, blocks: &Vec<BlockDevice>, filter: &regex::Regex) -> (r: Vec<
    Reading,
>)
    ensures
        reading::reading_views(r@) == chip_readings(*c, blocks@, pattern::language(*filter)),
{
    if is_chosen(c, filter) {
        collect_sensors(c, blocks)
    } else {
        let none: Vec<Reading> = Vec::new();
        assert(reading::reading_views(none@) =~= Seq::empty());
        none
    }
}

/// The readings of the sensors of a chip, which the filter matches.
pub fn collect_sensors(c: &ChipFiles, blocks: &Vec<BlockDevice>) -> (r: Vec<Reading>)
    ensures
        reading::reading_views(r@) == sensor_readings(*c, blocks@),
{
    let mut out: Vec<Reading> = Vec::new();
    assert(reading::reading_views(out@) =~= Seq::empty());
    let chip = chip_name(c.dir.as_str(), borrowed(&c.device), borrowed(&c.name));
    let disk = disk_of(blocks, borrowed(&c.device));
    let ghost on = sysfs::opt(disk);
    match sysfs::read_string(&c.name) {
        Some(name) => {
            let mut l = labels_of(chip.as_str(), &disk);
            labels::set_label(&mut l, "chip_name", name.as_str());
            reading::push(&mut out, reading::gauge("node_hwmon_chip_names", Value::Whole(1), l));
        },
        None => {},
    }
    let ghost first = driver_readings(sysfs::opt(c.name), chip@, on);
    assert(reading::reading_views(out@) =~= first);
    let mut i: usize = 0;
    assert(first + attributes_readings(c.attributes@.take(0), chip@, on) =~= first);
    while i < c.attributes.len()
        invariant
            i <= c.attributes@.len(),
            on == sysfs::opt(disk),
            reading::reading_views(out@) == first + attributes_readings(
                c.attributes@.take(i as int),
                chip@,
                on,
            ),
        decreases c.attributes@.len() - i,
    {
        assert(c.attributes@.take(i + 1).drop_last() =~= c.attributes@.take(i as int));
        assert(c.attributes@.take(i + 1).last() == c.attributes@[i as int]);
        match collect_attribute(&c.attributes[i], chip.as_str(), &disk) {
            Some(x) => {
                reading::push(&mut out, x);
            },
            None => {},
        }
        assert(reading::reading_views(out@) =~= first + attributes_readings(
            c.attributes@.take(i + 1),
            chip@,
            on,
        ));
        i = i + 1;
    }
    assert(c.attributes@.take(i as int) =~= c.attributes@);
    out
}

/// The readings of some chips, one chip after the other.
pub open spec fn chips_readings(
    chips: Seq<ChipFiles>,
    blocks: Seq<BlockDevice>,
    filter: Set<Seq<char>>,
) -> Seq<ReadingView>
    decreases chips.len(),
{
    if chips.len() == 0 {
        Seq::empty()
    } else {
        chips_readings(chips.drop_last(), blocks, filter) + chip_readings(
            chips.last(),
            blocks,
            filter,
        )
    }
}

/// The readings of every chip, in the order given.
pub fn collect(chips: &Vec<ChipFiles>, blocks: &Vec<BlockDevice>, filter: &regex::Regex) -> (r: Vec<
    Reading,
>)
    ensures
        reading::reading_views(r@) == chips_readings(chips@, blocks@, pattern::language(*filter)),
{
    let mut out: Vec<Reading> = Vec::new();
    let mut i: usize = 0;
    assert(reading::reading_views(out@) =~= Seq::empty());
    while i < chips.len()
        invariant
            i <= chips@.len(),
            reading::reading_views(out@) == chips_readings(
                chips@.take(i as int),
                blocks@,
                pattern::language(*filter),
            ),
        decreases chips@.len() - i,
    {
        assert(chips@.take(i + 1).drop_last() =~= chips@.take(i as int));
        assert(chips@.take(i + 1).last() == chips@[i as int]);
        let mut chip = collect_chip(&chips[i], blocks, filter);
        reading::append(&mut out, &mut chip);
        i = i + 1;
    }
    assert(chips@.take(i as int) =~= chips@);
    out
}

// Laws

proof fn disks_found(blocks: Seq<BlockDevice>, device: Seq<char>, i: int)
    requires
        0 <= i < blocks.len(),
        blocks[i].device@ == device,
    ensures
        disks_of(blocks, device).len() >= 1,
        (forall|k: int| 0 <= k < blocks.len() && k != i ==> (#[trigger] blocks[k]).device@ != device)
            ==> disks_of(blocks, device) == seq![blocks[i].name@],
    decreases blocks.len(),
{
    let l = blocks.drop_last();
    if i == blocks.len() - 1 {
        if forall|k: int| 0 <= k < blocks.len() && k != i ==> (#[trigger] blocks[k]).device@ != device {
            assert forall|k: int| 0 <= k < l.len() implies (#[trigger] l[k]).device@ != device by {
                assert(l[k] == blocks[k]);
            }
            no_disks(l, device);
            assert(disks_of(blocks, device) =~= seq![blocks[i].name@]);
        }
    } else {
        assert(l[i] == blocks[i]);
        if forall|k: int| 0 <= k < blocks.len() && k != i ==> (#[trigger] blocks[k]).device@ != device {
            assert forall|k: int| 0 <= k < l.len() && k != i implies (#[trigger] l[k]).device@
                != device by {
                assert(l[k] == blocks[k]);
            }
            assert(blocks[blocks.len() - 1].device@ != device);
        }
        disks_found(l, device, i);
    }
}

proof fn no_disks(blocks: Seq<BlockDevice>, device: Seq<char>)
    requires
        forall|k: int| 0 <= k < blocks.len() ==> (#[trigger] blocks[k]).device@ != device,
    ensures
        disks_of(blocks, device) == Seq::<Seq<char>>::empty(),
    decreases blocks.len(),
{
    if blocks.len() > 0 {
        let l = blocks.drop_last();
        assert(blocks[blocks.len() - 1].device@ != device);
        assert forall|k: int| 0 <= k < l.len() implies (#[trigger] l[k]).device@ != device by {
            assert(l[k] == blocks[k]);
        }
        no_disks(l, device);
    }
}

/// The sensors of a device with one disk describe that disk.
pub proof fn sole_disk_is_named(blocks: Seq<BlockDevice>, device: Seq<char>, i: int)
    requires
        0 <= i < blocks.len(),
        blocks[i].device@ == device,
        forall|k: int| 0 <= k < blocks.len() && k != i ==> (#[trigger] blocks[k]).device@ != device,
    ensures
        only_disk(blocks, Some(device)) == Some(blocks[i].name@),
{
    disks_found(blocks, device, i);
}

/// The sensors of a controller with several disks describe none of them.
pub proof fn ambiguous_disk_is_not_named(
    blocks: Seq<BlockDevice>,
    device: Seq<char>,
    i: int,
    j: int,
)
    requires
        0 <= i < j < blocks.len(),
        blocks[i].device@ == device,
        blocks[j].device@ == device,
    ensures
        only_disk(blocks, Some(device)) is None,
    decreases blocks.len(),
{
    let l = blocks.drop_last();
    assert(l[i] == blocks[i]);
    if j == blocks.len() - 1 {
        disks_found(l, device, i);
    } else {
        assert(l[j] == blocks[j]);
        ambiguous_disk_is_not_named(l, device, i, j);
        disks_found(l, device, i);
    }
}

/// A temperature limit that is not set is not reported.
pub proof fn unset_limits_are_not_reported(a: Attribute, chip: Seq<char>, disk: Option<Seq<char>>)
    requires
        a.number matches Some(bits) && unset_limit(bits),
        attribute(a.file@) matches Some((sensor, property)) && property != "label"@ && (class_of(
            sensor,
        ) matches Some(i) && class(i).0 == "temp"@),
    ensures
        attribute_readings(a, chip, disk) == Seq::<ReadingView>::empty(),
{
}

/// A sensor is classed by the letters before its number: temperatures, voltages and currents come
/// in thousandths, power and energy in millionths, and only energy is counted.
pub proof fn sensors_are_classed_by_their_letters(number: Seq<char>)
    requires
        number.len() > 0,
        number::all_digits(number),
    ensures
        class_of("temp"@ + number) matches Some(i) && class(i) == ("temp"@, 1000u64, "celsius"@, false),
        class_of("fan"@ + number) matches Some(i) && class(i) == ("fan"@, 1u64, "rpm"@, false),
        class_of("in"@ + number) matches Some(i) && class(i) == ("in"@, 1000u64, "volts"@, false),
        class_of("curr"@ + number) matches Some(i) && class(i) == ("curr"@, 1000u64, "amps"@, false),
        class_of("power"@ + number) matches Some(i) && class(i) == ("power"@, 1_000_000u64, "watt"@, false),
        class_of("energy"@ + number) matches Some(i) && class(i) == ("energy"@, 1_000_000u64, "joule"@, true),
        class_of("humidity"@ + number) matches Some(i) && class(i) == ("humidity"@, 1u64, ""@, false),
{
    reveal_strlit("temp");
    reveal_strlit("fan");
    reveal_strlit("in");
    reveal_strlit("curr");
    reveal_strlit("power");
    reveal_strlit("energy");
    reveal_strlit("humidity");
    assert("temp"@.len() == 4);
    assert("fan"@.len() == 3);
    assert("in"@.len() == 2);
    assert("curr"@.len() == 4);
    assert("power"@.len() == 5);
    assert("energy"@.len() == 6);
    assert("humidity"@.len() == 8);
    assert("temp"@[0] == 't');
    assert("curr"@[0] == 'c');
    reveal_with_fuel(class_from, 8);
    letters_decide("temp"@, number, 0);
    letters_decide("fan"@, number, 1);
    letters_decide("in"@, number, 2);
    letters_decide("curr"@, number, 3);
    letters_decide("power"@, number, 4);
    letters_decide("energy"@, number, 5);
    letters_decide("humidity"@, number, 6);
}

proof fn letters_decide(letters: Seq<char>, number: Seq<char>, i: int)
    requires
        0 <= i < 7,
        letters == class(i).0,
        number.len() > 0,
        number::all_digits(number),
    ensures
        class_of(letters + number) == Some(i),
{
    reveal_strlit("temp");
    reveal_strlit("fan");
    reveal_strlit("in");
    reveal_strlit("curr");
    reveal_strlit("power");
    reveal_strlit("energy");
    reveal_strlit("humidity");
    assert("temp"@.len() == 4);
    assert("fan"@.len() == 3);
    assert("in"@.len() == 2);
    assert("curr"@.len() == 4);
    assert("power"@.len() == 5);
    assert("energy"@.len() == 6);
    assert("humidity"@.len() == 8);
    assert("temp"@[0] == 't');
    assert("curr"@[0] == 'c');
    assert("temp"@[0] == 't');
    assert("fan"@[0] == 'f');
    assert("in"@[0] == 'i');
    assert("curr"@[0] == 'c');
    assert("power"@[0] == 'p');
    assert("energy"@[0] == 'e');
    assert("humidity"@[0] == 'h');
    let s = letters + number;
    assert(s.skip(letters.len() as int) =~= number);
    assert(s.take(letters.len() as int) =~= letters);
    assert(of_class(s, i));
    assert forall|j: int| 0 <= j < 7 && j != i implies !of_class(s, j) by {
        if text::begins(s, class(j).0) {
            assert(s.take(class(j).0.len() as int)[0] == class(j).0[0]);
            assert(s[0] == letters[0]);
        }
    }
    first_class(s, i, 0);
}

proof fn first_class(s: Seq<char>, i: int, from: int)
    requires
        0 <= from <= i < 7,
        of_class(s, i),
        forall|j: int| 0 <= j < 7 && j != i ==> !of_class(s, j),
    ensures
        class_from(s, from) == Some(i),
    decreases i - from,
{
    if from < i {
        first_class(s, i, from + 1);
    }
}

/// Letters without a number, and letters with anything but digits behind them, are no sensor.
pub proof fn other_names_are_no_sensors(sensor: Seq<char>)
    requires
        sensor.len() == 0 || !number::is_digit(sensor.last()),
    ensures
        class_of(sensor) is None,
{
    assert forall|j: int| 0 <= j < 7 implies !of_class(sensor, j) by {
        let n = class(j).0.len() as int;
        if sensor.len() > n {
            let rest = sensor.skip(n);
            assert(rest[rest.len() - 1] == sensor.last());
        }
    }
    no_class(sensor, 0);
}

proof fn no_class(s: Seq<char>, from: int)
    requires
        0 <= from,
        forall|j: int| 0 <= j < 7 ==> !of_class(s, j),
    ensures
        class_from(s, from) is None,
    decreases 7 - from,
{
    if from < 7 {
        no_class(s, from + 1);
    }
}

/// The name of a file of a sensor is the sensor, an underscore, and the property.
pub proof fn files_name_sensor_and_property(sensor: Seq<char>, property: Seq<char>)
    requires
        !sensor.contains('_'),
    ensures
        property.len() > 0 ==> attribute(sensor.push('_') + property) == Some((sensor, property)),
        property.len() == 0 ==> attribute(sensor.push('_') + property) is None,
        attribute(sensor) is None,
{
    text::cutting_takes_one_character(sensor, '_', property);
}

/// The name of a metric has the letters of the sensor, the property unless it is the input, and
/// the unit unless it is a flag or has none; the input of a counter ends in `_total`.
pub proof fn metrics_are_named_by_sensor_property_and_unit(
    letters: Seq<char>,
    scale: u64,
    unit: Seq<char>,
    property: Seq<char>,
)
    requires
        unit.len() > 0,
        property != "input"@,
    ensures
        named((letters, scale, unit, false), "input"@, true) == "node_hwmon_"@ + letters + "_"@
            + unit,
        named((letters, scale, unit, true), "input"@, true) == "node_hwmon_"@ + letters + "_"@
            + unit + "_total"@,
        named((letters, scale, Seq::empty(), false), "input"@, true) == "node_hwmon_"@ + letters,
        forall|counter: bool|
            #![auto]
            named((letters, scale, unit, counter), property, true) == "node_hwmon_"@ + letters
                + "_"@ + property + "_"@ + unit,
        forall|counter: bool|
            #![auto]
            named((letters, scale, unit, counter), property, false) == "node_hwmon_"@ + letters
                + "_"@ + property,
        forall|counter: bool|
            #![auto]
            named((letters, scale, Seq::empty(), counter), property, true) == "node_hwmon_"@
                + letters + "_"@ + property,
{
    assert(named((letters, scale, unit, false), "input"@, true) =~= "node_hwmon_"@ + letters + "_"@
        + unit);
    assert(named((letters, scale, unit, true), "input"@, true) =~= "node_hwmon_"@ + letters + "_"@
        + unit + "_total"@);
    assert(named((letters, scale, Seq::empty(), false), "input"@, true) =~= "node_hwmon_"@
        + letters);
    assert forall|counter: bool|
        #![auto]
        named((letters, scale, unit, counter), property, true) == "node_hwmon_"@ + letters + "_"@
            + property + "_"@ + unit by {
        assert(named((letters, scale, unit, counter), property, true) =~= "node_hwmon_"@ + letters
            + "_"@ + property + "_"@ + unit);
    }
    assert forall|counter: bool|
        #![auto]
        named((letters, scale, unit, counter), property, false) == "node_hwmon_"@ + letters + "_"@
            + property by {
        assert(named((letters, scale, unit, counter), property, false) =~= "node_hwmon_"@ + letters
            + "_"@ + property);
    }
    assert forall|counter: bool|
        #![auto]
        named((letters, scale, Seq::empty(), counter), property, true) == "node_hwmon_"@ + letters
            + "_"@ + property by {
        assert(named((letters, scale, Seq::empty(), counter), property, true) =~= "node_hwmon_"@
            + letters + "_"@ + property);
    }
}

/// A number of a sensor is reported with its bits as they are and the divisor of its class, which
/// for an alarm is 1; the input of a counter as a counter and everything else as a gauge, with the
/// chip and the sensor as labels, and the disk where there is one.
pub proof fn sensors_report_their_numbers(
    a: Attribute,
    sensor: Seq<char>,
    property: Seq<char>,
    i: int,
    bits: u64,
    chip: Seq<char>,
    disk: Option<Seq<char>>,
)
    requires
        !sensor.contains('_'),
        a.file@ == sensor.push('_') + property,
        class_of(sensor) == Some(i),
        a.number == Some(bits),
    ensures
        ({
            let r = attribute_readings(a, chip, disk);
            let is_temperature = sensor.len() > 0 && sensor[0] == 't';
            let unset = is_temperature && (bits == 0xc110_abf8_0000_0000 || bits
                == 0x418f_1e88_d000_0000);
            let flag = property == "alarm"@ || property == "crit_alarm"@;
            let figure = property == "input"@ || property == "min"@ || property == "max"@
                || property == "crit"@;
            let labels = match disk {
                Some(d) => Map::empty().insert("chip"@, chip).insert("disk"@, d),
                None => Map::empty().insert("chip"@, chip),
            };
            &&& !unset && (figure || flag) ==> r == seq![
                ReadingView {
                    name: named(class(i), property, figure),
                    value: Value::Float {
                        bits,
                        divisor: if figure {
                            class(i).1
                        } else {
                            1
                        },
                    },
                    labels: labels.insert("sensor"@, sensor),
                    metric_type: if class(i).3 && property == "input"@ {
                        MetricType::Counter
                    } else {
                        MetricType::Gauge
                    },
                },
            ]
            &&& unset && (figure || flag) ==> r.len() == 0
            &&& !figure && !flag && property != "label"@ ==> r.len() == 0
        }),
{
    reveal_strlit("alarm");
    reveal_strlit("crit_alarm");
    reveal_strlit("input");
    reveal_strlit("min");
    reveal_strlit("max");
    reveal_strlit("crit");
    reveal_strlit("label");
    assert("alarm"@.len() == 5);
    assert("crit_alarm"@.len() == 10);
    assert("input"@.len() == 5);
    assert("min"@.len() == 3);
    assert("max"@.len() == 3);
    assert("crit"@.len() == 4);
    assert("label"@.len() == 5);
    assert("alarm"@[0] == 'a');
    assert("input"@[0] == 'i');
    assert("label"@[0] == 'l');
    assert("min"@[1] == 'i');
    assert("max"@[1] == 'a');
    reveal_strlit("temp");
    reveal_strlit("fan");
    reveal_strlit("in");
    reveal_strlit("curr");
    reveal_strlit("power");
    reveal_strlit("energy");
    reveal_strlit("humidity");
    assert("temp"@.len() == 4);
    assert("fan"@.len() == 3);
    assert("in"@.len() == 2);
    assert("curr"@.len() == 4);
    assert("power"@.len() == 5);
    assert("energy"@.len() == 6);
    assert("humidity"@.len() == 8);
    assert("temp"@[0] == 't');
    assert("curr"@[0] == 'c');
    assert("temp"@[0] == 't');
    assert("fan"@[0] == 'f');
    assert("in"@[0] == 'i');
    assert("curr"@[0] == 'c');
    assert("power"@[0] == 'p');
    assert("energy"@[0] == 'e');
    assert("humidity"@[0] == 'h');
    if property.len() == 0 {
        files_name_sensor_and_property(sensor, property);
        assert(attribute_readings(a, chip, disk).len() == 0);
    } else {
        files_name_sensor_and_property(sensor, property);
        class_found(sensor, 0);
        assert(of_class(sensor, i));
        assert(sensor.take(class(i).0.len() as int)[0] == class(i).0[0]);
        assert(class(i).0 == "temp"@ <==> sensor[0] == 't');
    }
}

proof fn class_found(s: Seq<char>, from: int)
    requires
        0 <= from,
    ensures
        class_from(s, from) matches Some(i) ==> 0 <= i < 7 && of_class(s, i),
    decreases 7 - from,
{
    if from < 7 {
        class_found(s, from + 1);
    }
}

/// A label of a sensor is reported as 1, with what the file says as a label.
pub proof fn labels_of_sensors_are_reported(
    a: Attribute,
    sensor: Seq<char>,
    chip: Seq<char>,
    disk: Option<Seq<char>>,
)
    requires
        !sensor.contains('_'),
        a.file@ == sensor.push('_') + "label"@,
        class_of(sensor) is Some,
    ensures
        a.content matches Some(s) ==> ({
            let labels = match disk {
                Some(d) => Map::empty().insert("chip"@, chip).insert("disk"@, d),
                None => Map::empty().insert("chip"@, chip),
            };
            attribute_readings(a, chip, disk) == seq![
                ReadingView {
                    name: "node_hwmon_sensor_label"@,
                    value: Value::Whole(1),
                    labels: labels.insert("sensor"@, sensor).insert("label"@, text::trimmed(s@)),
                    metric_type: MetricType::Gauge,
                },
            ]
        }),
        a.content is None ==> attribute_readings(a, chip, disk).len() == 0,
{
    reveal_strlit("label");
    assert("label"@.len() == 5);
    files_name_sensor_and_property(sensor, "label"@);
}

/// A file that names no sensor is not reported.
pub proof fn other_files_are_not_reported(a: Attribute, chip: Seq<char>, disk: Option<Seq<char>>)
    requires
        !a.file@.contains('_'),
    ensures
        attribute_readings(a, chip, disk).len() == 0,
{
    text::cutting_takes_one_character(a.file@, '_', Seq::empty());
}

/// The name of a chip keeps its letters and digits in place, and has an underscore for everything
/// else.
pub proof fn letters_and_digits_are_kept(name: Seq<char>, i: int)
    requires
        0 <= i < name.len(),
    ensures
        cleaned(name).len() == name.len(),
        ('a' <= name[i] <= 'z') || ('A' <= name[i] <= 'Z') || ('0' <= name[i] <= '9')
            ==> cleaned(name)[i] == name[i],
        !('a' <= name[i] <= 'z') && !('A' <= name[i] <= 'Z') && !('0' <= name[i] <= '9')
            ==> cleaned(name)[i] == '_',
{
}

/// A chip is named after the device it belongs to and the directory of that, whatever its driver
/// and its own directory are called; without a device after its driver, and without either after
/// its own directory.
pub proof fn chips_are_named_after_their_device(
    dir: Seq<char>,
    bus_dir: Seq<char>,
    bus: Seq<char>,
    device: Seq<char>,
    driver: Option<Seq<char>>,
)
    requires
        !bus.contains('/') && bus.len() > 0 && bus != "."@ && bus != ".."@,
        !device.contains('/') && device.len() > 0 && device != "."@ && device != ".."@,
    ensures
        chip_label(dir, Some(bus_dir.push('/') + bus + seq!['/'] + device), driver) == cleaned(
            bus + seq!['_'] + device,
        ),
        chip_label(dir, Some(device), driver) == cleaned(device),
        driver matches Some(d) ==> chip_label(dir, None, driver) == cleaned(text::trimmed(d)),
        chip_label(bus_dir.push('/') + bus, None, None) == cleaned(bus),
{
    reveal_strlit("_");
    assert("_"@ =~= seq!['_']);
    let d = bus_dir.push('/') + bus;
    assert(d + seq!['/'] + device =~= d.push('/') + device);
    path::the_last_name_stands_behind_a_slash(bus_dir, bus);
    path::the_last_name_stands_behind_a_slash(d, device);
}

/// The name that the driver gives a chip is reported as 1, with that name as a label.
pub proof fn drivers_are_reported(name: Option<Seq<char>>, chip: Seq<char>, disk: Option<Seq<char>>)
    ensures
        name matches Some(n) ==> ({
            let labels = match disk {
                Some(d) => Map::empty().insert("chip"@, chip).insert("disk"@, d),
                None => Map::empty().insert("chip"@, chip),
            };
            driver_readings(name, chip, disk) == seq![
                ReadingView {
                    name: "node_hwmon_chip_names"@,
                    value: Value::Whole(1),
                    labels: labels.insert("chip_name"@, text::trimmed(n)),
                    metric_type: MetricType::Gauge,
                },
            ]
        }),
        name is None ==> driver_readings(name, chip, disk).len() == 0,
{
}

/// A chip is reported where the filter matches its name, or the name that its driver gives it: all
/// of its files, one after the other, under that name. Any other chip is not reported.
pub proof fn matching_chips_are_reported(
    c: ChipFiles,
    blocks: Seq<BlockDevice>,
    filter: Set<Seq<char>>,
)
    ensures
        ({
            let chip = chip_label(c.dir@, sysfs::opt(c.device), sysfs::opt(c.name));
            let disk = only_disk(blocks, sysfs::opt(c.device));
            let matched = filter.contains(chip) || (c.name matches Some(n) && filter.contains(
                text::trimmed(n@),
            ));
            &&& matched ==> chip_readings(c, blocks, filter) == driver_readings(
                sysfs::opt(c.name),
                chip,
                disk,
            ) + reading::chained(
                Seq::new(
                    c.attributes@.len(),
                    |i: int| attribute_readings(c.attributes@[i], chip, disk),
                ),
            )
            &&& !matched ==> chip_readings(c, blocks, filter).len() == 0
        }),
{
    let chip = chip_label(c.dir@, sysfs::opt(c.device), sysfs::opt(c.name));
    let disk = only_disk(blocks, sysfs::opt(c.device));
    attributes_are_chained(c.attributes@, chip, disk);
}

proof fn attributes_are_chained(a: Seq<Attribute>, chip: Seq<char>, disk: Option<Seq<char>>)
    ensures
        attributes_readings(a, chip, disk) == reading::chained(
            Seq::new(a.len(), |i: int| attribute_readings(a[i], chip, disk)),
        ),
    decreases a.len(),
{
    let lists = Seq::new(a.len(), |i: int| attribute_readings(a[i], chip, disk));
    if a.len() > 0 {
        let b = a.drop_last();
        attributes_are_chained(b, chip, disk);
        assert(lists.drop_last() =~= Seq::new(
            b.len(),
            |i: int| attribute_readings(b[i], chip, disk),
        ));
    } else {
        assert(reading::chained(lists) =~= Seq::empty());
    }
}

/// The readings of some chips are those of each, one chip after the other.
pub proof fn chips_are_reported_in_turn(
    chips: Seq<ChipFiles>,
    c: ChipFiles,
    blocks: Seq<BlockDevice>,
    filter: Set<Seq<char>>,
)
    ensures
        chips_readings(Seq::empty(), blocks, filter) == Seq::<ReadingView>::empty(),
        chips_readings(chips.push(c), blocks, filter) == chips_readings(chips, blocks, filter)
            + chip_readings(c, blocks, filter),
{
    assert(chips.push(c).drop_last() =~= chips);
}

} // verus!
