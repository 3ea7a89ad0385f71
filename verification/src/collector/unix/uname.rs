//! The name and the version of the system.
use vstd::prelude::*;

use crate::collector::reading::{self, Reading, ReadingView};
use crate::labels;
use crate::signal::{MetricType, Value};

verus! {

/// What the system says of itself.
pub struct SystemName {
    pub sysname: String,
    pub release: String,
    pub version: String,
    pub machine: String,
    pub nodename: String,
}

/// The reading that carries the name of the system in its labels.
pub open spec fn system_reading(s: SystemName) -> ReadingView {
    reading::gauge_view(
        "node_uname_info"@,
        Value::Whole(1),
        Map::empty().insert("sysname"@, s.sysname@).insert("release"@, s.release@).insert(
            "version"@,
            s.version@,
        ).insert("machine"@, s.machine@).insert("nodename"@, s.nodename@),
    )
}

/// The reading that carries the name of the system in its labels.
pub fn collect(s: &SystemName) -> (r: Vec<Reading>)
    ensures
        reading::reading_views(r@) == seq![system_reading(*s)],
{
    let mut l = labels::one_label("sysname", s.sysname.as_str());
    labels::set_label(&mut l, "release", s.release.as_str());
    labels::set_label(&mut l, "version", s.version.as_str());
    labels::set_label(&mut l, "machine", s.machine.as_str());
    labels::set_label(&mut l, "nodename", s.nodename.as_str());
    let mut out: Vec<Reading> = Vec::new();
    out.push(reading::gauge("node_uname_info", Value::Whole(1), l));
    assert(reading::reading_views(out@) =~= seq![system_reading(*s)]);
    out
}

// Laws

/// The name of the system is reported once, as 1, with every part of it under its own label.
pub proof fn the_system_is_named(s: SystemName)
    ensures
        system_reading(s).name == "node_uname_info"@,
        system_reading(s).value == Value::Whole(1),
        system_reading(s).metric_type == MetricType::Gauge,
        system_reading(s).labels["sysname"@] == s.sysname@,
        system_reading(s).labels["release"@] == s.release@,
        system_reading(s).labels["version"@] == s.version@,
        system_reading(s).labels["machine"@] == s.machine@,
        system_reading(s).labels["nodename"@] == s.nodename@,
        system_reading(s).labels.dom() =~= set![
            "sysname"@,
            "release"@,
            "version"@,
            "machine"@,
            "nodename"@,
        ],
{
    reveal_strlit("sysname");
    reveal_strlit("release");
    reveal_strlit("version");
    reveal_strlit("machine");
    reveal_strlit("nodename");
    assert("sysname"@[0] == 's');
    assert("release"@[0] == 'r');
    assert("version"@[0] == 'v');
    assert("machine"@[0] == 'm');
}

} // verus!
