use ferrometer::collector::reading::Reading;
use ferrometer::collector::unix::md::{
    activity_state, arrays, collect, disk_bucket, members, parse_sync_completed, ArrayFiles,
    MemberFiles,
};
use ferrometer::signal::{MetricType, Value};

fn text(s: &str) -> Option<String> {
    Some(format!("{s}\n"))
}

fn texts(v: &[&str]) -> Vec<String> {
    v.iter().map(|s| s.to_string()).collect()
}

fn label(r: &Reading, name: &str) -> Option<String> {
    r.labels.get(&name.to_string()).cloned()
}

fn member(disk: &str, state: &str) -> MemberFiles {
    MemberFiles {
        disk: disk.to_string(),
        state: text(state),
        errors: text("3"),
        size: text("1024"),
        slot: text("none"),
        bad_blocks: text(""),
        unacknowledged_bad_blocks: text("1 2\n\n3 4"),
    }
}

fn array() -> ArrayFiles {
    ArrayFiles {
        device: "md0".to_string(),
        level: text("raid1"),
        metadata_version: text("1.2"),
        uuid: None,
        consistency_policy: text("resync"),
        degraded: text("0"),
        raid_disks: text("2"),
        mismatch_cnt: text("0"),
        chunk_size: None,
        size: text("2001"),
        sync_completed: text("1024 / 4096"),
        sync_speed: text("none"),
        array_state: text("active"),
        sync_action: text("recover"),
        last_sync_action: text("check"),
        members: vec![member("sda1", "in_sync,write_mostly"), member("sdb1", "faulty")],
    }
}

fn find<'a>(r: &'a [Reading], name: &str) -> Vec<&'a Reading> {
    r.iter().filter(|x| x.name == name).collect()
}

#[test]
fn sync_completed_parsing() {
    assert_eq!(parse_sync_completed("1024 / 4096"), Some((1024, 4096)));
    assert_eq!(parse_sync_completed("0/8"), Some((0, 8)));
    assert_eq!(parse_sync_completed("none"), None);
    assert_eq!(parse_sync_completed("delayed"), None);
    assert_eq!(parse_sync_completed(""), None);
}

#[test]
fn disk_state_buckets() {
    assert_eq!(disk_bucket("in_sync"), "active");
    assert_eq!(disk_bucket("in_sync,write_mostly"), "active");
    assert_eq!(disk_bucket("faulty"), "failed");
    assert_eq!(disk_bucket("faulty,in_sync"), "failed");
    assert_eq!(disk_bucket("spare"), "spare");
    assert_eq!(disk_bucket(""), "spare");
}

#[test]
fn activity_states() {
    assert_eq!(activity_state(Some("clean"), Some("idle")), Some("active"));
    assert_eq!(activity_state(Some("active"), Some("check")), Some("check"));
    assert_eq!(activity_state(Some("active"), Some("recover")), Some("recovering"));
    assert_eq!(activity_state(Some("inactive"), Some("resync")), Some("inactive"));
    assert_eq!(activity_state(None, None), None);
}

#[test]
fn an_array_reports_its_state() {
    let r = collect(&vec![array()]);
    assert_eq!(r[0].name, "node_md_info");
    assert_eq!(label(&r[0], "level"), Some("raid1".to_string()));
    assert_eq!(label(&r[0], "uuid"), None);
    assert_eq!(find(&r, "node_md_blocks")[0].value, Value::Whole(1000));
    assert_eq!(find(&r, "node_md_blocks_synced")[0].value, Value::Whole(512));
    assert_eq!(
        find(&r, "node_md_sync_speed_bytes")[0].value,
        Value::Product { left: 0, right: 1024 }
    );
    assert!(find(&r, "node_md_chunk_size_bytes").is_empty());
    let states = find(&r, "node_md_state");
    assert_eq!(states.len(), 7);
    let on: Vec<String> = states
        .iter()
        .filter(|x| x.value == Value::Whole(1))
        .filter_map(|x| label(x, "state"))
        .collect();
    assert_eq!(on, vec!["recovering".to_string()]);
    assert_eq!(find(&r, "node_md_last_sync_action").len(), 1);
}

#[test]
fn an_idle_array_is_synced_in_full() {
    let mut a = array();
    a.sync_completed = text("none");
    let r = collect(&vec![a]);
    assert_eq!(find(&r, "node_md_blocks_synced")[0].value, Value::Whole(1000));
}

#[test]
fn members_are_reported_and_tallied() {
    let r = collect(&vec![array()]);
    assert_eq!(find(&r, "node_md_disk_state").len(), 3);
    let errors = find(&r, "node_md_disk_errors_total");
    assert_eq!(errors[0].metric_type, MetricType::Counter);
    assert_eq!(errors[0].value, Value::Whole(3));
    assert_eq!(find(&r, "node_md_disk_slot")[0].value, Value::Signed(-1));
    assert_eq!(find(&r, "node_md_disk_bad_blocks")[0].value, Value::Whole(0));
    assert_eq!(
        find(&r, "node_md_disk_unacknowledged_bad_blocks")[0].value,
        Value::Whole(2)
    );
    let tallies: Vec<(Option<String>, Value)> =
        find(&r, "node_md_disks").iter().map(|x| (label(x, "state"), x.value)).collect();
    assert_eq!(
        tallies,
        vec![
            (Some("active".to_string()), Value::Whole(1)),
            (Some("failed".to_string()), Value::Whole(1)),
            (Some("spare".to_string()), Value::Whole(0)),
        ]
    );
}

#[test]
fn arrays_and_members_are_listed_in_order() {
    assert_eq!(arrays(&texts(&["sda", "md127", "md0"])), texts(&["md0", "md127"]));
    assert_eq!(members(&texts(&["dev-sdb1", "rd0", "dev-sda1"])), texts(&["sda1", "sdb1"]));
}
