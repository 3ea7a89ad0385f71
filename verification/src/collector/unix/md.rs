//! Software RAID: what the files under `/sys/block/md*/md/` say of an array.
use vstd::prelude::*;

use crate::collector::reading::{self, Reading, ReadingView};
use crate::collector::unix::sysfs;
use crate::labels::{self, LabelMap, Labels};
use crate::number;
use crate::ordered;
use crate::signal::{MetricType, Value};
use crate::text;

verus! {

/// The files of one member device, from its `dev-<name>` directory.
pub struct MemberFiles {
    pub disk: String,
    pub state: Option<String>,
    pub errors: Option<String>,
    pub size: Option<String>,
    pub slot: Option<String>,
    pub bad_blocks: Option<String>,
    pub unacknowledged_bad_blocks: Option<String>,
}

/// The files of one array. `size` is the one of the block device, the others are those
/// of its `md` directory.
pub struct ArrayFiles {
    pub device: String,
    pub level: Option<String>,
    pub metadata_version: Option<String>,
    pub uuid: Option<String>,
    pub consistency_policy: Option<String>,
    pub degraded: Option<String>,
    pub raid_disks: Option<String>,
    pub mismatch_cnt: Option<String>,
    pub chunk_size: Option<String>,
    pub size: Option<String>,
    pub sync_completed: Option<String>,
    pub sync_speed: Option<String>,
    pub array_state: Option<String>,
    pub sync_action: Option<String>,
    pub last_sync_action: Option<String>,
    pub members: Vec<MemberFiles>,
}

// What the single files say

/// The two numbers of `<done> / <total>`.
pub open spec fn progress(raw: Seq<char>) -> Option<(int, int)> {
    match text::cut(raw, '/') {
        Some((done, total)) => match (
            number::unsigned(text::trimmed(done), u64::MAX as int),
            number::unsigned(text::trimmed(total), u64::MAX as int),
        ) {
            (Ok(a), Ok(b)) => Some((a, b)),
            _ => None,
        },
        None => None,
    }
}

/// Reads `sync_completed`: `<done> / <total>` in sectors while a sync runs, and `none`
/// or `delayed` otherwise.
pub fn parse_sync_completed(raw: &str) -> (r: Option<(u64, u64)>)
    ensures
        match r {
            Some((a, b)) => progress(raw@) == Some((a as int, b as int)),
            None => progress(raw@) is None,
        },
{
    match text::split_once(raw, '/') {
        Some((done, total)) => {
            let done = text::trim(done.as_str());
            let total = text::trim(total.as_str());
            match (number::parse_u64(done.as_str()), number::parse_u64(total.as_str())) {
                (Ok(a), Ok(b)) => Some((a, b)),
                _ => None,
            }
        },
        None => None,
    }
}

/// The comma-separated flags hold a flag.
pub open spec fn has_flag(state: Seq<char>, flag: Seq<char>) -> bool {
    exists|i: int|
        0 <= i < text::pieces(state, ',').len() && text::trimmed(
            #[trigger] text::pieces(state, ',')[i],
        ) == flag
}

fn holds_flag(state: &str, flag: &str) -> (r: bool)
    ensures
        r == has_flag(state@, flag@),
{
    let parts = text::split(state, ',');
    let ghost all = text::pieces(state@, ',');
    let mut i: usize = 0;
    while i < parts.len()
        invariant
            i <= parts@.len(),
            text::texts(parts@) == all,
            all == text::pieces(state@, ','),
            forall|k: int| 0 <= k < i ==> text::trimmed(#[trigger] all[k]) != flag@,
        decreases parts@.len() - i,
    {
        assert(all[i as int] == parts@[i as int]@);
        let part = text::trim(parts[i].as_str());
        if text::same(part.as_str(), flag) {
            return true;
        }
        i = i + 1;
    }
    false
}

/// The tally that a member with these flags counts for.
pub open spec fn bucket(state: Seq<char>) -> Seq<char> {
    if has_flag(state, "faulty"@) {
        "failed"@
    } else if has_flag(state, "in_sync"@) {
        "active"@
    } else {
        "spare"@
    }
}

/// Sorts a member into the active, failed and spare tallies by its flags.
pub fn disk_bucket(state: &str) -> (r: &'static str)
    ensures
        r@ == bucket(state@),
{
    if holds_flag(state, "faulty") {
        "failed"
    } else if holds_flag(state, "in_sync") {
        "active"
    } else {
        "spare"
    }
}

/// What an array is doing: an inactive one does nothing, whatever `sync_action` says.
pub open spec fn activity(
    array_state: Option<Seq<char>>,
    sync_action: Option<Seq<char>>,
) -> Option<Seq<char>> {
    if array_state == Some("inactive"@) {
        Some("inactive"@)
    } else if sync_action == Some("resync"@) {
        Some("resync"@)
    } else if sync_action == Some("recover"@) {
        Some("recovering"@)
    } else if sync_action == Some("check"@) {
        Some("check"@)
    } else if sync_action == Some("repair"@) {
        Some("repair"@)
    } else if sync_action == Some("reshape"@) {
        Some("reshape"@)
    } else if array_state is Some {
        Some("active"@)
    } else {
        None
    }
}

fn is_text(s: Option<&str>, t: &str) -> (r: bool)
    ensures
        r == (sysfs::opt_str(s) == Some(t@)),
{
    match s {
        Some(x) => text::same(x, t),
        None => false,
    }
}

/// Folds `array_state` and `sync_action` into one activity.
pub fn activity_state(array_state: Option<&str>, sync_action: Option<&str>) -> (r: Option<
    &'static str,
>)
    ensures
        sysfs::opt_str(r) == activity(sysfs::opt_str(array_state), sysfs::opt_str(sync_action)),
{
    if is_text(array_state, "inactive") {
        Some("inactive")
    } else if is_text(sync_action, "resync") {
        Some("resync")
    } else if is_text(sync_action, "recover") {
        Some("recovering")
    } else if is_text(sync_action, "check") {
        Some("check")
    } else if is_text(sync_action, "repair") {
        Some("repair")
    } else if is_text(sync_action, "reshape") {
        Some("reshape")
    } else {
        match array_state {
            Some(_) => Some("active"),
            None => None,
        }
    }
}

/// How many lines have something in them.
pub open spec fn lines_in(lines: Seq<Seq<char>>) -> nat
    decreases lines.len(),
{
    if lines.len() == 0 {
        0
    } else {
        lines_in(lines.drop_last()) + if text::trimmed(lines.last()).len() > 0 {
            1nat
        } else {
            0nat
        }
    }
}

/// Counts the lines of a text that are not blank.
fn count_lines(content: &str) -> (n: u64)
    ensures
        n == lines_in(text::pieces(content@, '\n')),
{
    let lines = text::split(content, '\n');
    let ghost all = text::pieces(content@, '\n');
    let mut n: u64 = 0;
    let mut i: usize = 0;
    while i < lines.len()
        invariant
            i <= lines@.len(),
            text::texts(lines@) == all,
            all == text::pieces(content@, '\n'),
            n <= i,
            n == lines_in(all.take(i as int)),
        decreases lines@.len() - i,
    {
        assert(all.take(i + 1).drop_last() =~= all.take(i as int));
        assert(all.take(i + 1).last() == lines@[i as int]@);
        let line = text::trim(lines[i].as_str());
        if !line.as_str().is_empty() {
            n = n + 1;
        }
        i = i + 1;
    }
    assert(all.take(i as int) =~= all);
    n
}

// Readings

/// No reading without a value.
pub open spec fn gauge_if(name: Seq<char>, value: Option<Value>, labels: LabelMap) -> Seq<
    ReadingView,
> {
    match value {
        Some(v) => seq![reading::gauge_view(name, v, labels)],
        None => Seq::empty(),
    }
}

/// The number of a file as a value.
pub open spec fn whole(n: Option<int>) -> Option<Value> {
    match n {
        Some(n) => Some(Value::Whole(n as u64)),
        None => None,
    }
}

/// A number of kibibytes as a value in bytes.
pub open spec fn kibibytes(n: int) -> Value {
    Value::Product { left: n as u64, right: 1024 }
}

/// The labels of an array.
pub open spec fn of_device(device: Seq<char>) -> LabelMap {
    Map::empty().insert("device"@, device)
}

/// The labels of a member.
pub open spec fn of_disk(device: Seq<char>, disk: Seq<char>) -> LabelMap {
    of_device(device).insert("disk"@, disk)
}

/// A label where there is a value for it.
pub open spec fn label_if(labels: LabelMap, name: Seq<char>, value: Option<Seq<char>>) -> LabelMap {
    match value {
        Some(v) => labels.insert(name, v),
        None => labels,
    }
}

/// The labels that identify an array: only what the array has is there.
pub open spec fn info_labels(a: ArrayFiles) -> LabelMap {
    let l = of_device(a.device@);
    let l = label_if(l, "level"@, sysfs::said(sysfs::opt(a.level)));
    let l = label_if(l, "metadata_version"@, sysfs::said(sysfs::opt(a.metadata_version)));
    let l = label_if(l, "uuid"@, sysfs::said(sysfs::opt(a.uuid)));
    label_if(l, "consistency_policy"@, sysfs::said(sysfs::opt(a.consistency_policy)))
}

/// The size of an array in blocks of 1024 bytes; the file counts sectors of 512.
pub open spec fn blocks(a: ArrayFiles) -> Option<int> {
    match sysfs::numbered(sysfs::opt(a.size)) {
        Some(sectors) => Some(sectors / 2),
        None => None,
    }
}

/// The blocks that are in sync: all of them unless a sync is running.
pub open spec fn blocks_synced(a: ArrayFiles) -> Option<int> {
    match sysfs::said(sysfs::opt(a.sync_completed)) {
        Some(raw) => match progress(raw) {
            Some((done, _)) => Some(done / 2),
            None => blocks(a),
        },
        None => blocks(a),
    }
}

/// The speed of a sync, in KiB per second in the file and none where it is not a number.
pub open spec fn sync_speed(a: ArrayFiles) -> Option<Value> {
    match sysfs::said(sysfs::opt(a.sync_speed)) {
        Some(raw) => Some(
            kibibytes(
                match number::unsigned(raw, u64::MAX as int) {
                    Ok(kib) => kib,
                    Err(_) => 0,
                },
            ),
        ),
        None => None,
    }
}

/// The activities of an array.
pub open spec fn activities() -> Seq<Seq<char>> {
    seq![
        "active"@,
        "inactive"@,
        "recovering"@,
        "resync"@,
        "check"@,
        "repair"@,
        "reshape"@,
    ]
}

/// One reading for an activity: whether it is the current one.
pub open spec fn state_reading(device: Seq<char>, state: Seq<char>, current: Seq<char>) -> ReadingView {
    reading::gauge_view(
        "node_md_state"@,
        Value::Whole(
            if state == current {
                1
            } else {
                0
            },
        ),
        of_device(device).insert("state"@, state),
    )
}

/// One reading for every activity, so that none is ever missing.
pub open spec fn state_readings(a: ArrayFiles) -> Seq<ReadingView> {
    match activity(sysfs::said(sysfs::opt(a.array_state)), sysfs::said(sysfs::opt(a.sync_action))) {
        Some(current) => activities().map_values(
            |state: Seq<char>| state_reading(a.device@, state, current),
        ),
        None => Seq::empty(),
    }
}

/// The reading of the last sync action.
pub open spec fn action_readings(a: ArrayFiles) -> Seq<ReadingView> {
    match sysfs::said(sysfs::opt(a.last_sync_action)) {
        Some(action) => seq![
            reading::gauge_view(
                "node_md_last_sync_action"@,
                Value::Whole(1),
                of_device(a.device@).insert("action"@, action),
            ),
        ],
        None => Seq::empty(),
    }
}

/// One reading for each flag that is not empty.
pub open spec fn flag_readings(device: Seq<char>, disk: Seq<char>, flags: Seq<Seq<char>>) -> Seq<
    ReadingView,
>
    decreases flags.len(),
{
    if flags.len() == 0 {
        Seq::empty()
    } else {
        let flag = text::trimmed(flags.last());
        let before = flag_readings(device, disk, flags.drop_last());
        if flag.len() > 0 {
            before.push(
                reading::gauge_view(
                    "node_md_disk_state"@,
                    Value::Whole(1),
                    of_disk(device, disk).insert("state"@, flag),
                ),
            )
        } else {
            before
        }
    }
}

/// The slot of a member: -1 where it has none.
pub open spec fn slot(m: MemberFiles) -> Option<Value> {
    match sysfs::said(sysfs::opt(m.slot)) {
        Some(raw) => Some(
            Value::Signed(
                match number::signed(raw) {
                    Some(n) => n as i64,
                    None => -1i64,
                },
            ),
        ),
        None => None,
    }
}

/// The number of ranges in a list with one range on each line.
pub open spec fn ranges(content: Option<Seq<char>>) -> Option<Value> {
    match sysfs::said(content) {
        Some(t) => Some(Value::Whole(lines_in(text::pieces(t, '\n')) as u64)),
        None => None,
    }
}

/// The readings of one member.
pub open spec fn member_readings(device: Seq<char>, m: MemberFiles) -> Seq<ReadingView> {
    let labels = of_disk(device, m.disk@);
    (match sysfs::said(sysfs::opt(m.state)) {
        Some(state) => flag_readings(device, m.disk@, text::pieces(state, ',')),
        None => Seq::empty(),
    }) + (match sysfs::numbered(sysfs::opt(m.errors)) {
        Some(n) => seq![
            reading::counter_view("node_md_disk_errors_total"@, Value::Whole(n as u64), labels),
        ],
        None => Seq::empty(),
    }) + gauge_if(
        "node_md_disk_size_bytes"@,
        match sysfs::numbered(sysfs::opt(m.size)) {
            Some(kib) => Some(kibibytes(kib)),
            None => None,
        },
        labels,
    ) + gauge_if("node_md_disk_slot"@, slot(m), labels) + gauge_if(
        "node_md_disk_bad_blocks"@,
        ranges(sysfs::opt(m.bad_blocks)),
        labels,
    ) + gauge_if(
        "node_md_disk_unacknowledged_bad_blocks"@,
        ranges(sysfs::opt(m.unacknowledged_bad_blocks)),
        labels,
    )
}

/// The readings of some members, one member after the other.
pub open spec fn members_readings(device: Seq<char>, members: Seq<MemberFiles>) -> Seq<ReadingView>
    decreases members.len(),
{
    if members.len() == 0 {
        Seq::empty()
    } else {
        members_readings(device, members.drop_last()) + member_readings(device, members.last())
    }
}

/// How many members count for a tally. A member without a state counts for none.
pub open spec fn tally(members: Seq<MemberFiles>, name: Seq<char>) -> nat
    decreases members.len(),
{
    if members.len() == 0 {
        0
    } else {
        tally(members.drop_last(), name) + match sysfs::said(sysfs::opt(members.last().state)) {
            Some(state) => if bucket(state) == name {
                1nat
            } else {
                0nat
            },
            None => 0nat,
        }
    }
}

/// The reading of a tally.
pub open spec fn tally_reading(a: ArrayFiles, name: Seq<char>) -> ReadingView {
    reading::gauge_view(
        "node_md_disks"@,
        Value::Whole(tally(a.members@, name) as u64),
        of_device(a.device@).insert("state"@, name),
    )
}

/// The readings of one array.
pub open spec fn array_readings(a: ArrayFiles) -> Seq<ReadingView> {
    let labels = of_device(a.device@);
    seq![reading::gauge_view("node_md_info"@, Value::Whole(1), info_labels(a))] + gauge_if(
        "node_md_degraded"@,
        whole(sysfs::numbered(sysfs::opt(a.degraded))),
        labels,
    ) + gauge_if(
        "node_md_disks_required"@,
        whole(sysfs::numbered(sysfs::opt(a.raid_disks))),
        labels,
    ) + gauge_if(
        "node_md_mismatch_cnt"@,
        whole(sysfs::numbered(sysfs::opt(a.mismatch_cnt))),
        labels,
    ) + gauge_if(
        "node_md_chunk_size_bytes"@,
        whole(sysfs::numbered(sysfs::opt(a.chunk_size))),
        labels,
    ) + gauge_if("node_md_blocks"@, whole(blocks(a)), labels) + gauge_if(
        "node_md_blocks_synced"@,
        whole(blocks_synced(a)),
        labels,
    ) + gauge_if("node_md_sync_speed_bytes"@, sync_speed(a), labels) + state_readings(a)
        + action_readings(a) + members_readings(a.device@, a.members@) + seq![
        tally_reading(a, "active"@),
        tally_reading(a, "failed"@),
        tally_reading(a, "spare"@),
    ]
}

/// The readings of some arrays, one array after the other.
pub open spec fn arrays_readings(arrays: Seq<ArrayFiles>) -> Seq<ReadingView>
    decreases arrays.len(),
{
    if arrays.len() == 0 {
        Seq::empty()
    } else {
        arrays_readings(arrays.drop_last()) + array_readings(arrays.last())
    }
}

fn device_labels(device: &str) -> (l: Labels)
    ensures
        l@ == of_device(device@),
{
    labels::one_label("device", device)
}

fn push_gauge(out: &mut Vec<Reading>, name: &str, value: Option<Value>, device: &str)
    ensures
        reading::reading_views(final(out)@) == reading::reading_views(old(out)@) + gauge_if(
            name@,
            value,
            of_device(device@),
        ),
{
    match value {
        Some(v) => {
            reading::push(out, reading::gauge(name, v, device_labels(device)));
        },
        None => {},
    }
    assert(reading::reading_views(out@) =~= reading::reading_views(old(out)@) + gauge_if(
        name@,
        value,
        of_device(device@),
    ));
}

fn disk_labels(device: &str, disk: &str) -> (l: Labels)
    ensures
        l@ == of_disk(device@, disk@),
{
    let mut l = device_labels(device);
    labels::set_label(&mut l, "disk", disk);
    l
}

fn push_disk_gauge(out: &mut Vec<Reading>, name: &str, value: Option<Value>, device: &str, disk: &str)
    ensures
        reading::reading_views(final(out)@) == reading::reading_views(old(out)@) + gauge_if(
            name@,
            value,
            of_disk(device@, disk@),
        ),
{
    match value {
        Some(v) => {
            reading::push(out, reading::gauge(name, v, disk_labels(device, disk)));
        },
        None => {},
    }
    assert(reading::reading_views(out@) =~= reading::reading_views(old(out)@) + gauge_if(
        name@,
        value,
        of_disk(device@, disk@),
    ));
}

fn whole_of(content: &Option<String>) -> (v: Option<Value>)
    ensures
        v == whole(sysfs::numbered(sysfs::opt(*content))),
{
    match sysfs::read_u64(content) {
        Some(n) => Some(Value::Whole(n)),
        None => None,
    }
}

fn set_if(l: &mut Labels, name: &str, content: &Option<String>)
    ensures
        final(l)@ == label_if(old(l)@, name@, sysfs::said(sysfs::opt(*content))),
{
    match sysfs::read_string(content) {
        Some(v) => {
            labels::set_label(l, name, v.as_str());
        },
        None => {},
    }
}

fn push_states(a: &ArrayFiles, out: &mut Vec<Reading>)
    ensures
        reading::reading_views(final(out)@) == reading::reading_views(old(out)@) + state_readings(
            *a,
        ),
{
    let array_state = sysfs::read_string(&a.array_state);
    let sync_action = sysfs::read_string(&a.sync_action);
    let array_ref = match &array_state {
        Some(s) => Some(s.as_str()),
        None => None,
    };
    let action_ref = match &sync_action {
        Some(s) => Some(s.as_str()),
        None => None,
    };
    let ghost before = reading::reading_views(out@);
    match activity_state(array_ref, action_ref) {
        Some(current) => {
            let states: [&'static str; 7] = [
                "active",
                "inactive",
                "recovering",
                "resync",
                "check",
                "repair",
                "reshape",
            ];
            let ghost wanted = state_readings(*a);
            let mut i: usize = 0;
            while i < 7
                invariant
                    i <= 7,
                    states@ == seq![
                        "active",
                        "inactive",
                        "recovering",
                        "resync",
                        "check",
                        "repair",
                        "reshape",
                    ],
                    wanted == activities().map_values(
                        |state: Seq<char>| state_reading(a.device@, state, current@),
                    ),
                    reading::reading_views(out@) == before + wanted.take(i as int),
                decreases 7 - i,
            {
                let state: &str = states[i];
                assert(activities()[i as int] == state@);
                let value: u64 = if text::same(state, current) {
                    1
                } else {
                    0
                };
                let mut l = device_labels(a.device.as_str());
                labels::set_label(&mut l, "state", state);
                reading::push(out, reading::gauge("node_md_state", Value::Whole(value), l));
                assert(before + wanted.take(i + 1) =~= (before + wanted.take(i as int)).push(
                    wanted[i as int],
                ));
                i = i + 1;
            }
            assert(wanted.take(7) =~= wanted);
        },
        None => {
            assert(before + state_readings(*a) =~= before);
        },
    }
}

fn push_flags(device: &str, disk: &str, state: &str, out: &mut Vec<Reading>)
    ensures
        reading::reading_views(final(out)@) == reading::reading_views(old(out)@) + flag_readings(
            device@,
            disk@,
            text::pieces(state@, ','),
        ),
{
    let flags = text::split(state, ',');
    let ghost all = text::pieces(state@, ',');
    let ghost before = reading::reading_views(out@);
    let mut i: usize = 0;
    assert(before + flag_readings(device@, disk@, all.take(0)) =~= before);
    while i < flags.len()
        invariant
            i <= flags@.len(),
            text::texts(flags@) == all,
            reading::reading_views(out@) == before + flag_readings(
                device@,
                disk@,
                all.take(i as int),
            ),
        decreases flags@.len() - i,
    {
        assert(all.take(i + 1).drop_last() =~= all.take(i as int));
        assert(all.take(i + 1).last() == flags@[i as int]@);
        let flag = text::trim(flags[i].as_str());
        if !flag.as_str().is_empty() {
            let mut l = disk_labels(device, disk);
            labels::set_label(&mut l, "state", flag.as_str());
            reading::push(out, reading::gauge("node_md_disk_state", Value::Whole(1), l));
        }
        assert(reading::reading_views(out@) =~= before + flag_readings(
            device@,
            disk@,
            all.take(i + 1),
        ));
        i = i + 1;
    }
    assert(all.take(i as int) =~= all);
}

fn ranges_of(content: &Option<String>) -> (v: Option<Value>)
    ensures
        v == ranges(sysfs::opt(*content)),
{
    match sysfs::read_string(content) {
        Some(t) => Some(Value::Whole(count_lines(t.as_str()))),
        None => None,
    }
}

fn collect_member(device: &str, m: &MemberFiles) -> (r: Vec<Reading>)
    ensures
        reading::reading_views(r@) == member_readings(device@, *m),
{
    let mut readings: Vec<Reading> = Vec::new();
    let out = &mut readings;
    let disk = m.disk.as_str();
    let ghost none = reading::reading_views(out@);
    assert(none =~= Seq::empty());
    match sysfs::read_string(&m.state) {
        Some(state) => {
            push_flags(device, disk, state.as_str(), out);
            assert(none + flag_readings(device@, disk@, text::pieces(state@, ','))
                =~= flag_readings(device@, disk@, text::pieces(state@, ',')));
        },
        None => {},
    }
    let ghost flagged = reading::reading_views(out@);
    match sysfs::read_u64(&m.errors) {
        Some(n) => {
            reading::push(
                out,
                reading::counter(
                    "node_md_disk_errors_total",
                    Value::Whole(n),
                    disk_labels(device, disk),
                ),
            );
        },
        None => {},
    }
    assert(reading::reading_views(out@) =~= flagged + (match sysfs::numbered(
        sysfs::opt(m.errors),
    ) {
        Some(n) => seq![
            reading::counter_view(
                "node_md_disk_errors_total"@,
                Value::Whole(n as u64),
                of_disk(device@, disk@),
            ),
        ],
        None => Seq::empty(),
    }));
    let size = match sysfs::read_u64(&m.size) {
        Some(kib) => Some(Value::Product { left: kib, right: 1024 }),
        None => None,
    };
    push_disk_gauge(out, "node_md_disk_size_bytes", size, device, disk);
    let slot = match sysfs::read_string(&m.slot) {
        Some(raw) => match number::parse_i64(raw.as_str()) {
            Some(n) => Some(Value::Signed(n)),
            None => Some(Value::Signed(-1)),
        },
        None => None,
    };
    push_disk_gauge(out, "node_md_disk_slot", slot, device, disk);
    push_disk_gauge(out, "node_md_disk_bad_blocks", ranges_of(&m.bad_blocks), device, disk);
    push_disk_gauge(
        out,
        "node_md_disk_unacknowledged_bad_blocks",
        ranges_of(&m.unacknowledged_bad_blocks),
        device,
        disk,
    );
    readings
}

fn push_tally(out: &mut Vec<Reading>, a: &ArrayFiles, name: &str, count: u64)
    requires
        count == tally(a.members@, name@),
    ensures
        reading::reading_views(final(out)@) == reading::reading_views(old(out)@).push(
            tally_reading(*a, name@),
        ),
{
    let mut l = device_labels(a.device.as_str());
    labels::set_label(&mut l, "state", name);
    reading::push(out, reading::gauge("node_md_disks", Value::Whole(count), l));
}

/// Counts the members of a tally.
fn count_tally(members: &Vec<MemberFiles>, name: &str) -> (n: u64)
    ensures
        n == tally(members@, name@),
{
    let mut n: u64 = 0;
    let mut i: usize = 0;
    while i < members.len()
        invariant
            i <= members@.len(),
            n <= i,
            n == tally(members@.take(i as int), name@),
        decreases members@.len() - i,
    {
        assert(members@.take(i + 1).drop_last() =~= members@.take(i as int));
        assert(members@.take(i + 1).last() == members@[i as int]);
        match sysfs::read_string(&members[i].state) {
            Some(state) => {
                if text::same(disk_bucket(state.as_str()), name) {
                    n = n + 1;
                }
            },
            None => {},
        }
        i = i + 1;
    }
    assert(members@.take(i as int) =~= members@);
    n
}

/// The readings of one array.
pub fn collect_array(a: &ArrayFiles) -> (r: Vec<Reading>)
    ensures
        reading::reading_views(r@) == array_readings(*a),
{
    let mut readings: Vec<Reading> = Vec::new();
    let out = &mut readings;
    let device = a.device.as_str();

    let mut info = device_labels(device);
    set_if(&mut info, "level", &a.level);
    set_if(&mut info, "metadata_version", &a.metadata_version);
    set_if(&mut info, "uuid", &a.uuid);
    set_if(&mut info, "consistency_policy", &a.consistency_policy);
    reading::push(out, reading::gauge("node_md_info", Value::Whole(1), info));
    assert(reading::reading_views(out@) =~= seq![
        reading::gauge_view("node_md_info"@, Value::Whole(1), info_labels(*a)),
    ]);

    push_gauge(out, "node_md_degraded", whole_of(&a.degraded), device);
    push_gauge(out, "node_md_disks_required", whole_of(&a.raid_disks), device);
    push_gauge(out, "node_md_mismatch_cnt", whole_of(&a.mismatch_cnt), device);
    push_gauge(out, "node_md_chunk_size_bytes", whole_of(&a.chunk_size), device);

    let blocks = match sysfs::read_u64(&a.size) {
        Some(sectors) => Some(Value::Whole(sectors / 2)),
        None => None,
    };
    push_gauge(out, "node_md_blocks", blocks, device);

    let synced = match sysfs::read_string(&a.sync_completed) {
        Some(raw) => match parse_sync_completed(raw.as_str()) {
            Some((done, _)) => Some(Value::Whole(done / 2)),
            None => blocks,
        },
        None => blocks,
    };
    push_gauge(out, "node_md_blocks_synced", synced, device);

    let speed = match sysfs::read_string(&a.sync_speed) {
        Some(raw) => {
            let kib: u64 = match number::parse_u64(raw.as_str()) {
                Ok(n) => n,
                Err(_) => 0,
            };
            Some(Value::Product { left: kib, right: 1024 })
        },
        None => None,
    };
    push_gauge(out, "node_md_sync_speed_bytes", speed, device);

    push_states(a, out);

    let ghost stated = reading::reading_views(out@);
    match sysfs::read_string(&a.last_sync_action) {
        Some(action) => {
            let mut l = device_labels(device);
            labels::set_label(&mut l, "action", action.as_str());
            reading::push(out, reading::gauge("node_md_last_sync_action", Value::Whole(1), l));
        },
        None => {},
    }

    assert(reading::reading_views(out@) =~= stated + action_readings(*a));

    let ghost middle = reading::reading_views(out@);
    let mut i: usize = 0;
    assert(middle + members_readings(device@, a.members@.take(0)) =~= middle);
    while i < a.members.len()
        invariant
            i <= a.members@.len(),
            device@ == a.device@,
            reading::reading_views(out@) == middle + members_readings(
                device@,
                a.members@.take(i as int),
            ),
        decreases a.members@.len() - i,
    {
        assert(a.members@.take(i + 1).drop_last() =~= a.members@.take(i as int));
        assert(a.members@.take(i + 1).last() == a.members@[i as int]);
        let mut member = collect_member(device, &a.members[i]);
        reading::append(out, &mut member);
        assert(reading::reading_views(out@) =~= middle + members_readings(
            device@,
            a.members@.take(i + 1),
        ));
        i = i + 1;
    }
    assert(a.members@.take(i as int) =~= a.members@);

    let ghost joined = reading::reading_views(out@);
    push_tally(out, a, "active", count_tally(&a.members, "active"));
    push_tally(out, a, "failed", count_tally(&a.members, "failed"));
    push_tally(out, a, "spare", count_tally(&a.members, "spare"));
    assert(reading::reading_views(out@) =~= joined + seq![
        tally_reading(*a, "active"@),
        tally_reading(*a, "failed"@),
        tally_reading(*a, "spare"@),
    ]);
    readings
}

/// The readings of every array, in the order given. Without the md module there are no
/// arrays, and so no readings.
pub fn collect(arrays: &Vec<ArrayFiles>) -> (r: Vec<Reading>)
    ensures
        reading::reading_views(r@) == arrays_readings(arrays@),
{
    let mut out: Vec<Reading> = Vec::new();
    let mut i: usize = 0;
    assert(reading::reading_views(out@) =~= Seq::empty());
    while i < arrays.len()
        invariant
            i <= arrays@.len(),
            reading::reading_views(out@) == arrays_readings(arrays@.take(i as int)),
        decreases arrays@.len() - i,
    {
        assert(arrays@.take(i + 1).drop_last() =~= arrays@.take(i as int));
        assert(arrays@.take(i + 1).last() == arrays@[i as int]);
        let mut array = collect_array(&arrays[i]);
        reading::append(&mut out, &mut array);
        i = i + 1;
    }
    assert(arrays@.take(i as int) =~= arrays@);
    out
}

// Which directories are looked at

/// The block devices that can be arrays, in order: those whose names start with `md`.
pub fn arrays(names: &Vec<String>) -> (r: Vec<String>)
    ensures
        ordered::ascending::<String>(text::texts(r@)),
        forall|t: Seq<char>|
            #![trigger text::texts(r@).contains(t)]
            text::texts(r@).contains(t) <==> text::texts(names@).contains(t) && text::begins(
                t,
                "md"@,
            ),
{
    let ghost all = text::texts(names@);
    let mut found: Vec<String> = Vec::new();
    let mut i: usize = 0;
    while i < names.len()
        invariant
            i <= names@.len(),
            all == text::texts(names@),
            forall|t: Seq<char>|
                #![trigger text::texts(found@).contains(t)]
                text::texts(found@).contains(t) ==> all.contains(t) && text::begins(t, "md"@),
            forall|k: int|
                0 <= k < i && text::begins(#[trigger] all[k], "md"@) ==> text::texts(
                    found@,
                ).contains(all[k]),
        decreases names@.len() - i,
    {
        assert(all[i as int] == names@[i as int]@);
        if text::starts_with(names[i].as_str(), "md") {
            let ghost before = text::texts(found@);
            found.push(names[i].clone());
            assert(text::texts(found@) =~= before.push(all[i as int]));
            proof {
                pushed_texts(before, text::texts(found@), all[i as int]);
            }
        }
        i = i + 1;
    }
    let r = ordered::sorted_names(found);
    proof {
        assert forall|t: Seq<char>|
            #![trigger text::texts(r@).contains(t)]
            text::texts(r@).contains(t) <==> all.contains(t) && text::begins(t, "md"@) by {
            if all.contains(t) && text::begins(t, "md"@) {
                let k = choose|k: int| 0 <= k < all.len() && all[k] == t;
                assert(text::texts(found@).contains(all[k]));
            }
        }
    }
    r
}

proof fn pushed_texts(before: Seq<Seq<char>>, after: Seq<Seq<char>>, t: Seq<char>)
    requires
        after == before.push(t),
    ensures
        forall|x: Seq<char>| #[trigger] after.contains(x) <==> before.contains(x) || x == t,
{
    assert(after[before.len() as int] == t);
    assert forall|x: Seq<char>| #[trigger] after.contains(x) <==> before.contains(x) || x == t by {
        if before.contains(x) {
            let k = choose|k: int| 0 <= k < before.len() && before[k] == x;
            assert(after[k] == x);
        }
        if after.contains(x) && x != t {
            let k = choose|k: int| 0 <= k < after.len() && after[k] == x;
            assert(before[k] == x);
        }
    }
}

/// The member devices of an array, in order: what stands behind `dev-` in the names of
/// its directories.
pub fn members(names: &Vec<String>) -> (r: Vec<String>)
    ensures
        ordered::ascending::<String>(text::texts(r@)),
        forall|t: Seq<char>|
            #![trigger text::texts(r@).contains(t)]
            text::texts(r@).contains(t) <==> text::texts(names@).contains("dev-"@ + t),
{
    let ghost all = text::texts(names@);
    let mut found: Vec<String> = Vec::new();
    let mut i: usize = 0;
    while i < names.len()
        invariant
            i <= names@.len(),
            all == text::texts(names@),
            forall|t: Seq<char>|
                #![trigger text::texts(found@).contains(t)]
                text::texts(found@).contains(t) ==> all.contains("dev-"@ + t),
            forall|k: int, t: Seq<char>|
                0 <= k < i && #[trigger] all[k] == "dev-"@ + t ==> #[trigger] text::texts(
                    found@,
                ).contains(t),
        decreases names@.len() - i,
    {
        let ghost name = all[i as int];
        assert(name == names@[i as int]@);
        match text::strip_prefix(names[i].as_str(), "dev-") {
            Some(disk) => {
                let ghost before = text::texts(found@);
                let ghost tail = disk@;
                assert(name =~= "dev-"@ + tail) by {
                    assert(name.take("dev-"@.len() as int) == "dev-"@);
                }
                assert(all.contains("dev-"@ + tail));
                found.push(disk);
                assert(text::texts(found@) =~= before.push(tail));
                proof {
                    pushed_texts(before, text::texts(found@), tail);
                }
                assert forall|t: Seq<char>| name == "dev-"@ + t implies t == tail by {
                    assert(t =~= name.skip("dev-"@.len() as int));
                }
            },
            None => {
                assert forall|t: Seq<char>| name != "dev-"@ + t by {
                    if name == "dev-"@ + t {
                        assert(name.take("dev-"@.len() as int) =~= "dev-"@);
                    }
                }
            },
        }
        i = i + 1;
    }
    let r = ordered::sorted_names(found);
    proof {
        assert forall|t: Seq<char>|
            #![trigger text::texts(r@).contains(t)]
            text::texts(r@).contains(t) <==> all.contains("dev-"@ + t) by {
            if all.contains("dev-"@ + t) {
                let k = choose|k: int| 0 <= k < all.len() && all[k] == "dev-"@ + t;
                assert(text::texts(found@).contains(t));
            }
        }
    }
    r
}

// What holds of every array

/// Whatever an array is doing is one of the activities, so that exactly one of the
/// readings of its activity is 1.
pub proof fn one_activity_is_current(
    device: Seq<char>,
    array_state: Option<Seq<char>>,
    sync_action: Option<Seq<char>>,
)
    ensures
        match activity(array_state, sync_action) {
            Some(current) => {
                &&& activities().contains(current)
                &&& forall|i: int|
                    0 <= i < activities().len() ==> (state_reading(
                        device,
                        #[trigger] activities()[i],
                        current,
                    ).value == Value::Whole(1) <==> activities()[i] == current)
            },
            None => array_state is None,
        },
{
    let all = activities();
    assert(all[0] == "active"@ && all[1] == "inactive"@ && all[2] == "recovering"@ && all[3]
        == "resync"@ && all[4] == "check"@ && all[5] == "repair"@ && all[6] == "reshape"@);
}

/// How many members have a state.
pub open spec fn with_state(members: Seq<MemberFiles>) -> nat
    decreases members.len(),
{
    if members.len() == 0 {
        0
    } else {
        with_state(members.drop_last()) + if members.last().state is Some {
            1nat
        } else {
            0nat
        }
    }
}

/// Every member with a state counts for exactly one of the three tallies.
pub proof fn tallies_cover_the_members(members: Seq<MemberFiles>)
    ensures
        tally(members, "active"@) + tally(members, "failed"@) + tally(members, "spare"@)
            == with_state(members),
    decreases members.len(),
{
    reveal_strlit("active");
    reveal_strlit("failed");
    reveal_strlit("spare");
    assert("active"@.len() != "spare"@.len());
    assert("active"@[0] != "failed"@[0]);
    if members.len() > 0 {
        tallies_cover_the_members(members.drop_last());
    }
}

/// The number in a file, as a value.
pub open spec fn number_in(file: Option<String>) -> Option<Value> {
    match file {
        Some(s) => match sysfs::numbered(Some(s@)) {
            Some(n) => Some(Value::Whole(n as u64)),
            None => None,
        },
        None => None,
    }
}

/// The readings of an array in sections, one for each name that an array has, and one for its
/// members.
spec fn section(a: ArrayFiles, k: int) -> Seq<ReadingView> {
    let labels = of_device(a.device@);
    if k == 0 {
        seq![reading::gauge_view("node_md_info"@, Value::Whole(1), info_labels(a))]
    } else if k == 1 {
        gauge_if("node_md_degraded"@, whole(sysfs::numbered(sysfs::opt(a.degraded))), labels)
    } else if k == 2 {
        gauge_if(
                "node_md_disks_required"@,
                whole(sysfs::numbered(sysfs::opt(a.raid_disks))),
                labels,
            )
    } else if k == 3 {
        gauge_if("node_md_mismatch_cnt"@, whole(sysfs::numbered(sysfs::opt(a.mismatch_cnt))), labels)
    } else if k == 4 {
        gauge_if(
                "node_md_chunk_size_bytes"@,
                whole(sysfs::numbered(sysfs::opt(a.chunk_size))),
                labels,
            )
    } else if k == 5 {
        gauge_if("node_md_blocks"@, whole(blocks(a)), labels)
    } else if k == 6 {
        gauge_if("node_md_blocks_synced"@, whole(blocks_synced(a)), labels)
    } else if k == 7 {
        gauge_if("node_md_sync_speed_bytes"@, sync_speed(a), labels)
    } else if k == 8 {
        state_readings(a)
    } else if k == 9 {
        action_readings(a)
    } else if k == 10 {
        members_readings(a.device@, a.members@)
    } else {
        seq![
                tally_reading(a, "active"@),
                tally_reading(a, "failed"@),
                tally_reading(a, "spare"@),
            ]
    }
}

spec fn sections(a: ArrayFiles) -> Seq<Seq<ReadingView>> {
    Seq::new(12, |k: int| section(a, k))
}

spec fn member_name(name: Seq<char>) -> bool {
    name == "node_md_disk_state"@
        || name == "node_md_disk_errors_total"@
        || name == "node_md_disk_size_bytes"@
        || name == "node_md_disk_slot"@
        || name == "node_md_disk_bad_blocks"@
        || name == "node_md_disk_unacknowledged_bad_blocks"@
}

proof fn sections_are_the_readings(a: ArrayFiles)
    ensures
        array_readings(a) == reading::chained(sections(a)),
{
    let s = sections(a);
    reading::chained_pushed(s.take(0), s[0]);
    assert(s.take(1) =~= s.take(0).push(s[0]));
    reading::chained_pushed(s.take(1), s[1]);
    assert(s.take(2) =~= s.take(1).push(s[1]));
    reading::chained_pushed(s.take(2), s[2]);
    assert(s.take(3) =~= s.take(2).push(s[2]));
    reading::chained_pushed(s.take(3), s[3]);
    assert(s.take(4) =~= s.take(3).push(s[3]));
    reading::chained_pushed(s.take(4), s[4]);
    assert(s.take(5) =~= s.take(4).push(s[4]));
    reading::chained_pushed(s.take(5), s[5]);
    assert(s.take(6) =~= s.take(5).push(s[5]));
    reading::chained_pushed(s.take(6), s[6]);
    assert(s.take(7) =~= s.take(6).push(s[6]));
    reading::chained_pushed(s.take(7), s[7]);
    assert(s.take(8) =~= s.take(7).push(s[7]));
    reading::chained_pushed(s.take(8), s[8]);
    assert(s.take(9) =~= s.take(8).push(s[8]));
    reading::chained_pushed(s.take(9), s[9]);
    assert(s.take(10) =~= s.take(9).push(s[9]));
    reading::chained_pushed(s.take(10), s[10]);
    assert(s.take(11) =~= s.take(10).push(s[10]));
    reading::chained_pushed(s.take(11), s[11]);
    assert(s.take(12) =~= s.take(11).push(s[11]));
    assert(reading::chained(s.take(0)) =~= Seq::empty());
    assert(Seq::<ReadingView>::empty() + s[0] =~= s[0]);
    assert(s.take(12) =~= s);
}

proof fn names_of_a_member(device: Seq<char>, m: MemberFiles)
    ensures
        forall|i: int|
            0 <= i < member_readings(device, m).len() ==> member_name(
                (#[trigger] member_readings(device, m)[i]).name,
            ),
{
    match sysfs::said(sysfs::opt(m.state)) {
        Some(state) => {
            names_of_flags(device, m.disk@, text::pieces(state, ','));
        },
        None => {},
    }
}

proof fn names_of_flags(device: Seq<char>, disk: Seq<char>, flags: Seq<Seq<char>>)
    ensures
        reading::all_named(flag_readings(device, disk, flags), "node_md_disk_state"@),
    decreases flags.len(),
{
    if flags.len() > 0 {
        names_of_flags(device, disk, flags.drop_last());
    }
}

proof fn names_of_members(device: Seq<char>, members: Seq<MemberFiles>)
    ensures
        forall|i: int|
            0 <= i < members_readings(device, members).len() ==> member_name(
                (#[trigger] members_readings(device, members)[i]).name,
            ),
    decreases members.len(),
{
    if members.len() > 0 {
        names_of_members(device, members.drop_last());
        names_of_a_member(device, members.last());
    }
}

spec fn section_name(k: int) -> Seq<char> {
    if k == 0 {
        "node_md_info"@
    } else if k == 1 {
        "node_md_degraded"@
    } else if k == 2 {
        "node_md_disks_required"@
    } else if k == 3 {
        "node_md_mismatch_cnt"@
    } else if k == 4 {
        "node_md_chunk_size_bytes"@
    } else if k == 5 {
        "node_md_blocks"@
    } else if k == 6 {
        "node_md_blocks_synced"@
    } else if k == 7 {
        "node_md_sync_speed_bytes"@
    } else if k == 8 {
        "node_md_state"@
    } else if k == 9 {
        "node_md_last_sync_action"@
    } else if k == 10 {
        "node_md_disk_state"@
    } else {
        "node_md_disks"@
    }
}

proof fn sections_have_their_names(a: ArrayFiles)
    ensures
        forall|k: int, l: int|
            0 <= k < 12 && 0 <= l < 12 && k != l && l != 10 ==> reading::none_named(
                #[trigger] sections(a)[k],
                #[trigger] section_name(l),
            ),
        forall|k: int|
            0 <= k < 12 && k != 10 ==> reading::all_named(
                #[trigger] sections(a)[k],
                section_name(k),
            ),
{
    reveal_strlit("node_md_info");
    reveal_strlit("node_md_degraded");
    reveal_strlit("node_md_disks_required");
    reveal_strlit("node_md_mismatch_cnt");
    reveal_strlit("node_md_chunk_size_bytes");
    reveal_strlit("node_md_blocks");
    reveal_strlit("node_md_blocks_synced");
    reveal_strlit("node_md_sync_speed_bytes");
    reveal_strlit("node_md_state");
    reveal_strlit("node_md_last_sync_action");
    reveal_strlit("node_md_disks");
    reveal_strlit("node_md_disk_state");
    reveal_strlit("node_md_disk_errors_total");
    reveal_strlit("node_md_disk_size_bytes");
    reveal_strlit("node_md_disk_slot");
    reveal_strlit("node_md_disk_bad_blocks");
    reveal_strlit("node_md_disk_unacknowledged_bad_blocks");
    assert("node_md_info"@.len() == 12);
    assert("node_md_degraded"@.len() == 16);
    assert("node_md_disks_required"@.len() == 22);
    assert("node_md_mismatch_cnt"@.len() == 20);
    assert("node_md_chunk_size_bytes"@.len() == 24);
    assert("node_md_blocks"@.len() == 14);
    assert("node_md_blocks_synced"@.len() == 21);
    assert("node_md_sync_speed_bytes"@.len() == 24);
    assert("node_md_state"@.len() == 13);
    assert("node_md_last_sync_action"@.len() == 24);
    assert("node_md_disks"@.len() == 13);
    assert("node_md_disk_state"@.len() == 18);
    assert("node_md_disk_errors_total"@.len() == 25);
    assert("node_md_disk_size_bytes"@.len() == 23);
    assert("node_md_disk_slot"@.len() == 17);
    assert("node_md_disk_bad_blocks"@.len() == 23);
    assert("node_md_disk_unacknowledged_bad_blocks"@.len() == 38);
    assert("node_md_chunk_size_bytes"@[8] == 'c');
    assert("node_md_sync_speed_bytes"@[8] == 's');
    assert("node_md_last_sync_action"@[8] == 'l');
    assert("node_md_state"@[8] == 's');
    assert("node_md_disks"@[8] == 'd');
    assert("node_md_disk_size_bytes"@[13] == 's');
    assert("node_md_disk_bad_blocks"@[13] == 'b');
    names_of_members(a.device@, a.members@);
    let s = sections(a);
    assert forall|k: int| 0 <= k < 12 && k != 10 implies reading::all_named(
        #[trigger] s[k],
        section_name(k),
    ) by {}
    assert forall|k: int, l: int| 0 <= k < 12 && 0 <= l < 12 && k != l && l != 10 implies
        reading::none_named(#[trigger] s[k], #[trigger] section_name(l)) by {
        if k == 10 {
            assert(!member_name(section_name(l)));
        } else {
            assert(reading::all_named(s[k], section_name(k)));
            assert(section_name(k) != section_name(l));
        }
    }
}

proof fn section_of(a: ArrayFiles, k: int)
    requires
        0 <= k < 12,
        k != 10,
    ensures
        reading::of_name(array_readings(a), section_name(k)) == section(a, k),
{
    sections_are_the_readings(a);
    sections_have_their_names(a);
    let s = sections(a);
    let name = section_name(k);
    assert forall|j: int| 0 <= j < s.len() && j != k implies reading::none_named(
        #[trigger] s[j],
        name,
    ) by {}
    reading::of_name_in_one_list(s, k, name);
    reading::of_name_uniform(s[k], name);
}

proof fn a_gauge_or_none(name: Seq<char>, value: Option<Value>, labels: LabelMap)
    ensures
        gauge_if(name, value, labels) == reading::only(name, value, labels, MetricType::Gauge),
{
}

/// What the files of an array count is reported once, under the name that goes with the file, and
/// with the array as its label: how many disks are missing is `node_md_degraded`, whatever the
/// other files say, and how many the array should have is `node_md_disks_required`.
#[verifier::rlimit(40)]
pub proof fn counts_are_reported_under_their_names(a: ArrayFiles)
    ensures
        reading::of_name(array_readings(a), "node_md_degraded"@) == reading::only(
            "node_md_degraded"@,
            number_in(a.degraded),
            Map::empty().insert("device"@, a.device@),
            MetricType::Gauge,
        ),
        reading::of_name(array_readings(a), "node_md_disks_required"@) == reading::only(
            "node_md_disks_required"@,
            number_in(a.raid_disks),
            Map::empty().insert("device"@, a.device@),
            MetricType::Gauge,
        ),
        reading::of_name(array_readings(a), "node_md_mismatch_cnt"@) == reading::only(
            "node_md_mismatch_cnt"@,
            number_in(a.mismatch_cnt),
            Map::empty().insert("device"@, a.device@),
            MetricType::Gauge,
        ),
        reading::of_name(array_readings(a), "node_md_chunk_size_bytes"@) == reading::only(
            "node_md_chunk_size_bytes"@,
            number_in(a.chunk_size),
            Map::empty().insert("device"@, a.device@),
            MetricType::Gauge,
        ),
{
    section_of(a, 1);
    section_of(a, 2);
    section_of(a, 3);
    section_of(a, 4);
    a_gauge_or_none("node_md_degraded"@, number_in(a.degraded), of_device(a.device@));
    a_gauge_or_none("node_md_disks_required"@, number_in(a.raid_disks), of_device(a.device@));
    a_gauge_or_none("node_md_mismatch_cnt"@, number_in(a.mismatch_cnt), of_device(a.device@));
    a_gauge_or_none("node_md_chunk_size_bytes"@, number_in(a.chunk_size), of_device(a.device@));
}

/// A file `degraded` with a number in it, 0 or any other, is reported as that number, and so is
/// a file `raid_disks`.
pub proof fn degraded_is_what_the_file_says(a: ArrayFiles, n: u64, k: u64)
    ensures
        (a.degraded matches Some(s) && (s@ == number::decimal(n as nat) || s@ == number::decimal(
            n as nat,
        ).push('\n'))) ==> reading::of_name(array_readings(a), "node_md_degraded"@) == seq![
            ReadingView {
                name: "node_md_degraded"@,
                value: Value::Whole(n),
                labels: Map::empty().insert("device"@, a.device@),
                metric_type: MetricType::Gauge,
            },
        ],
        (a.raid_disks matches Some(s) && (s@ == number::decimal(k as nat) || s@ == number::decimal(
            k as nat,
        ).push('\n'))) ==> reading::of_name(array_readings(a), "node_md_disks_required"@) == seq![
            ReadingView {
                name: "node_md_disks_required"@,
                value: Value::Whole(k),
                labels: Map::empty().insert("device"@, a.device@),
                metric_type: MetricType::Gauge,
            },
        ],
{
    counts_are_reported_under_their_names(a);
    sysfs::numbers_are_read_as_they_stand(n, seq!['x']);
    sysfs::numbers_are_read_as_they_stand(k, seq!['x']);
}

/// The size of an array is half as many blocks as its file has sectors. Without a sync all of
/// them are in sync; while one runs, half as many as it is done with. The speed is in bytes, and
/// 0 where the file says anything but a number.
#[verifier::rlimit(40)]
pub proof fn progress_is_reported_in_blocks(a: ArrayFiles)
    ensures
        reading::of_name(array_readings(a), "node_md_blocks"@) == reading::only(
            "node_md_blocks"@,
            match sysfs::numbered(sysfs::opt(a.size)) {
                Some(sectors) => Some(Value::Whole((sectors / 2) as u64)),
                None => None,
            },
            Map::empty().insert("device"@, a.device@),
            MetricType::Gauge,
        ),
        reading::of_name(array_readings(a), "node_md_blocks_synced"@) == reading::only(
            "node_md_blocks_synced"@,
            match sysfs::said(sysfs::opt(a.sync_completed)) {
                Some(raw) if progress(raw) is Some => Some(
                    Value::Whole(((progress(raw)->0).0 / 2) as u64),
                ),
                _ => match sysfs::numbered(sysfs::opt(a.size)) {
                    Some(sectors) => Some(Value::Whole((sectors / 2) as u64)),
                    None => None,
                },
            },
            Map::empty().insert("device"@, a.device@),
            MetricType::Gauge,
        ),
        reading::of_name(array_readings(a), "node_md_sync_speed_bytes"@) == reading::only(
            "node_md_sync_speed_bytes"@,
            match sysfs::numbered(sysfs::opt(a.sync_speed)) {
                Some(kib) => Some(Value::Product { left: kib as u64, right: 1024 }),
                None => if a.sync_speed is Some {
                    Some(Value::Product { left: 0, right: 1024 })
                } else {
                    None
                },
            },
            Map::empty().insert("device"@, a.device@),
            MetricType::Gauge,
        ),
{
    section_of(a, 5);
    section_of(a, 6);
    section_of(a, 7);
    a_gauge_or_none("node_md_blocks"@, whole(blocks(a)), of_device(a.device@));
    a_gauge_or_none("node_md_blocks_synced"@, whole(blocks_synced(a)), of_device(a.device@));
    a_gauge_or_none("node_md_sync_speed_bytes"@, sync_speed(a), of_device(a.device@));
}

/// A sync that is done with some of its sectors says so as `<done> / <total>`.
pub proof fn progress_is_done_and_total(done: u64, total: u64)
    ensures
        progress(number::decimal(done as nat) + seq![' ', '/', ' '] + number::decimal(total as nat))
            == Some((done as int, total as int)),
{
    let d = number::decimal(done as nat);
    let t = number::decimal(total as nat);
    number::decimal_is_all_digits(done as nat);
    number::decimal_is_all_digits(total as nat);
    number::decimal_is_read_back(done);
    number::decimal_is_read_back(total);
    assert(number::is_digit(d[0]) && number::is_digit(d[d.len() - 1]));
    assert(number::is_digit(t[0]) && number::is_digit(t[t.len() - 1]));
    let before = d.push(' ');
    let after = seq![' '] + t;
    assert(!before.contains('/')) by {
        if before.contains('/') {
            let i = choose|i: int| 0 <= i < before.len() && before[i] == '/';
            if i < d.len() {
                assert(number::is_digit(d[i]));
            }
        }
    }
    assert(d + seq![' ', '/', ' '] + t =~= before.push('/') + after);
    text::cutting_takes_one_character(before, '/', after);
    text::trimming_leaves_the_rest(t);
    text::trimming_leaves_the_rest(d);
    assert(before.drop_last() =~= d);
    assert(text::trimmed(before) == d) by {
        assert(text::trimmed_front(before) == before);
        assert(text::trimmed_back(before) == text::trimmed_back(d));
        assert(text::trimmed_front(d) == d);
    }
}

/// What identifies an array is reported once, as 1, with the level, the metadata, the identity
/// and the policy under their own labels, as far as the files could be read.
pub proof fn an_array_is_identified(a: ArrayFiles)
    ensures
        reading::of_name(array_readings(a), "node_md_info"@).len() == 1,
        ({
            let r = reading::of_name(array_readings(a), "node_md_info"@)[0];
            &&& r.value == Value::Whole(1)
            &&& r.metric_type == MetricType::Gauge
            &&& r.labels["device"@] == a.device@
            &&& a.level matches Some(s) ==> r.labels["level"@] == text::trimmed(s@)
            &&& a.metadata_version matches Some(s) ==> r.labels["metadata_version"@]
                == text::trimmed(s@)
            &&& a.uuid matches Some(s) ==> r.labels["uuid"@] == text::trimmed(s@)
            &&& a.consistency_policy matches Some(s) ==> r.labels["consistency_policy"@]
                == text::trimmed(s@)
            &&& a.level is None ==> !r.labels.dom().contains("level"@)
            &&& a.metadata_version is None ==> !r.labels.dom().contains("metadata_version"@)
            &&& a.uuid is None ==> !r.labels.dom().contains("uuid"@)
            &&& a.consistency_policy is None ==> !r.labels.dom().contains("consistency_policy"@)
        }),
{
    reveal_strlit("device");
    reveal_strlit("level");
    reveal_strlit("metadata_version");
    reveal_strlit("uuid");
    reveal_strlit("consistency_policy");
    assert("device"@.len() == 6);
    assert("level"@.len() == 5);
    assert("metadata_version"@.len() == 16);
    assert("uuid"@.len() == 4);
    assert("consistency_policy"@.len() == 18);
    section_of(a, 0);
}

/// What an array is doing: an inactive one is inactive, whatever its sync action says; otherwise
/// the sync action is what it is doing, and one that is idle, or cannot be read, is active.
pub proof fn activity_follows_the_files(state: Seq<char>, action: Option<Seq<char>>)
    ensures
        activity(Some("inactive"@), action) == Some("inactive"@),
        state != "inactive"@ ==> activity(Some(state), Some("recover"@)) == Some("recovering"@),
        state != "inactive"@ ==> activity(Some(state), Some("resync"@)) == Some("resync"@),
        state != "inactive"@ ==> activity(Some(state), Some("check"@)) == Some("check"@),
        state != "inactive"@ ==> activity(Some(state), Some("repair"@)) == Some("repair"@),
        state != "inactive"@ ==> activity(Some(state), Some("reshape"@)) == Some("reshape"@),
        state != "inactive"@ && action != Some("recover"@) && action != Some("resync"@) && action
            != Some("check"@) && action != Some("repair"@) && action != Some("reshape"@)
            ==> activity(Some(state), action) == Some("active"@),
        activity(None, None) is None,
{
    reveal_strlit("recover");
    reveal_strlit("resync");
    reveal_strlit("check");
    reveal_strlit("repair");
    reveal_strlit("reshape");
    reveal_strlit("inactive");
    assert("recover"@.len() == 7);
    assert("resync"@.len() == 6);
    assert("check"@.len() == 5);
    assert("repair"@.len() == 6);
    assert("reshape"@.len() == 7);
    assert("inactive"@.len() == 8);
    assert("recover"@[2] == 'c');
    assert("reshape"@[2] == 's');
    assert("resync"@[2] == 's');
    assert("repair"@[2] == 'p');
}

/// The activity of an array is reported as 1, every other activity as 0, each once and under its
/// own label; an array whose state cannot be read has no activity.
#[verifier::rlimit(40)]
pub proof fn activities_are_reported(a: ArrayFiles, i: int)
    requires
        0 <= i < 7,
    ensures
        ({
            let now = activity(
                sysfs::said(sysfs::opt(a.array_state)),
                sysfs::said(sysfs::opt(a.sync_action)),
            );
            let r = reading::of_name(array_readings(a), "node_md_state"@);
            &&& now is None ==> r.len() == 0
            &&& now is Some ==> r.len() == 7 && r[i] == (ReadingView {
                name: "node_md_state"@,
                value: Value::Whole(
                    if activities()[i] == now->0 {
                        1
                    } else {
                        0
                    },
                ),
                labels: Map::empty().insert("device"@, a.device@).insert("state"@, activities()[i]),
                metric_type: MetricType::Gauge,
            })
        }),
        activities() == seq![
            "active"@,
            "inactive"@,
            "recovering"@,
            "resync"@,
            "check"@,
            "repair"@,
            "reshape"@,
        ],
{
    section_of(a, 8);
}

/// The last sync action is reported as 1 under its own name, where the file could be read.
pub proof fn the_last_action_is_reported(a: ArrayFiles)
    ensures
        a.last_sync_action matches Some(s) ==> reading::of_name(
            array_readings(a),
            "node_md_last_sync_action"@,
        ) == seq![
            ReadingView {
                name: "node_md_last_sync_action"@,
                value: Value::Whole(1),
                labels: Map::empty().insert("device"@, a.device@).insert(
                    "action"@,
                    text::trimmed(s@),
                ),
                metric_type: MetricType::Gauge,
            },
        ],
        a.last_sync_action is None ==> reading::of_name(
            array_readings(a),
            "node_md_last_sync_action"@,
        ).len() == 0,
{
    section_of(a, 9);
}

/// The members are counted as active, failed and spare, each count under its own label.
pub proof fn members_are_counted_by_state(a: ArrayFiles)
    ensures
        reading::of_name(array_readings(a), "node_md_disks"@) == seq![
            ReadingView {
                name: "node_md_disks"@,
                value: Value::Whole(tally(a.members@, "active"@) as u64),
                labels: Map::empty().insert("device"@, a.device@).insert("state"@, "active"@),
                metric_type: MetricType::Gauge,
            },
            ReadingView {
                name: "node_md_disks"@,
                value: Value::Whole(tally(a.members@, "failed"@) as u64),
                labels: Map::empty().insert("device"@, a.device@).insert("state"@, "failed"@),
                metric_type: MetricType::Gauge,
            },
            ReadingView {
                name: "node_md_disks"@,
                value: Value::Whole(tally(a.members@, "spare"@) as u64),
                labels: Map::empty().insert("device"@, a.device@).insert("state"@, "spare"@),
                metric_type: MetricType::Gauge,
            },
        ],
{
    section_of(a, 11);
}

/// One more member is one more of its kind: failed where it is marked as faulty, whatever else it
/// is; otherwise active where it is in sync, and spare where it is not. A member whose state
/// cannot be read is none of these.
pub proof fn one_more_member_counts_once(members: Seq<MemberFiles>, m: MemberFiles, kind: Seq<char>)
    ensures
        tally(Seq::empty(), kind) == 0,
        m.state is None ==> tally(members.push(m), kind) == tally(members, kind),
        m.state matches Some(s) ==> {
            let state = text::trimmed(s@);
            &&& has_flag(state, "faulty"@) ==> tally(members.push(m), "failed"@) == tally(
                members,
                "failed"@,
            ) + 1
            &&& !has_flag(state, "faulty"@) && has_flag(state, "in_sync"@) ==> tally(
                members.push(m),
                "active"@,
            ) == tally(members, "active"@) + 1
            &&& !has_flag(state, "faulty"@) && !has_flag(state, "in_sync"@) ==> tally(
                members.push(m),
                "spare"@,
            ) == tally(members, "spare"@) + 1
        },
{
    assert(members.push(m).drop_last() =~= members);
}

/// The flags of a member are what stands between the commas of its state, without the white
/// space around it.
pub proof fn flags_stand_between_commas(first: Seq<char>, more: Seq<char>, flag: Seq<char>)
    requires
        !first.contains(','),
    ensures
        has_flag(first, flag) <==> text::trimmed(first) == flag,
        has_flag(first.push(',') + more, flag) <==> text::trimmed(first) == flag || has_flag(
            more,
            flag,
        ),
{
    text::splitting_takes_the_separators(first, ',', more);
    let all = text::pieces(first.push(',') + more, ',');
    let rest = text::pieces(more, ',');
    assert(text::pieces(first, ',')[0] == first);
    assert(all[0] == first);
    if has_flag(more, flag) {
        let i = choose|i: int| 0 <= i < rest.len() && text::trimmed(#[trigger] rest[i]) == flag;
        assert(all[i + 1] == rest[i]);
    }
    if has_flag(first.push(',') + more, flag) {
        let i = choose|i: int| 0 <= i < all.len() && text::trimmed(#[trigger] all[i]) == flag;
        if i > 0 {
            assert(rest[i - 1] == all[i]);
        }
    }
}

/// The readings of some members are those of each, one member after the other, and so are those
/// of some arrays.
pub proof fn members_and_arrays_are_chained(
    device: Seq<char>,
    members: Seq<MemberFiles>,
    m: MemberFiles,
    arrays: Seq<ArrayFiles>,
    a: ArrayFiles,
)
    ensures
        members_readings(device, Seq::empty()) == Seq::<ReadingView>::empty(),
        members_readings(device, members.push(m)) == members_readings(device, members)
            + member_readings(device, m),
        arrays_readings(Seq::empty()) == Seq::<ReadingView>::empty(),
        arrays_readings(arrays.push(a)) == arrays_readings(arrays) + array_readings(a),
        forall|r: ReadingView| #[trigger]
            members_readings(a.device@, a.members@).contains(r) ==> array_readings(a).contains(r),
{
    assert(members.push(m).drop_last() =~= members);
    assert(arrays.push(a).drop_last() =~= arrays);
    sections_are_the_readings(a);
    assert forall|r: ReadingView| #[trigger]
        members_readings(a.device@, a.members@).contains(r) implies array_readings(a).contains(r) by {
        assert(sections(a)[10].contains(r));
        reading::chained_contains(sections(a), r);
    }
}

/// The readings of a member in sections, one for each name.
spec fn member_section(device: Seq<char>, m: MemberFiles, k: int) -> Seq<ReadingView> {
    let labels = of_disk(device, m.disk@);
    if k == 0 {
        match sysfs::said(sysfs::opt(m.state)) {
            Some(state) => flag_readings(device, m.disk@, text::pieces(state, ',')),
            None => Seq::empty(),
        }
    } else if k == 1 {
        match sysfs::numbered(sysfs::opt(m.errors)) {
            Some(n) => seq![
                reading::counter_view("node_md_disk_errors_total"@, Value::Whole(n as u64), labels),
            ],
            None => Seq::empty(),
        }
    } else if k == 2 {
        gauge_if(
            "node_md_disk_size_bytes"@,
            match sysfs::numbered(sysfs::opt(m.size)) {
                Some(kib) => Some(kibibytes(kib)),
                None => None,
            },
            labels,
        )
    } else if k == 3 {
        gauge_if("node_md_disk_slot"@, slot(m), labels)
    } else if k == 4 {
        gauge_if("node_md_disk_bad_blocks"@, ranges(sysfs::opt(m.bad_blocks)), labels)
    } else {
        gauge_if(
            "node_md_disk_unacknowledged_bad_blocks"@,
            ranges(sysfs::opt(m.unacknowledged_bad_blocks)),
            labels,
        )
    }
}

spec fn member_section_name(k: int) -> Seq<char> {
    if k == 0 {
        "node_md_disk_state"@
    } else if k == 1 {
        "node_md_disk_errors_total"@
    } else if k == 2 {
        "node_md_disk_size_bytes"@
    } else if k == 3 {
        "node_md_disk_slot"@
    } else if k == 4 {
        "node_md_disk_bad_blocks"@
    } else {
        "node_md_disk_unacknowledged_bad_blocks"@
    }
}

proof fn member_section_of(device: Seq<char>, m: MemberFiles, k: int)
    requires
        0 <= k < 6,
    ensures
        reading::of_name(member_readings(device, m), member_section_name(k)) == member_section(
            device,
            m,
            k,
        ),
{
    reveal_strlit("node_md_disk_state");
    reveal_strlit("node_md_disk_errors_total");
    reveal_strlit("node_md_disk_size_bytes");
    reveal_strlit("node_md_disk_slot");
    reveal_strlit("node_md_disk_bad_blocks");
    reveal_strlit("node_md_disk_unacknowledged_bad_blocks");
    assert("node_md_disk_state"@.len() == 18);
    assert("node_md_disk_errors_total"@.len() == 25);
    assert("node_md_disk_size_bytes"@.len() == 23);
    assert("node_md_disk_slot"@.len() == 17);
    assert("node_md_disk_bad_blocks"@.len() == 23);
    assert("node_md_disk_unacknowledged_bad_blocks"@.len() == 38);
    assert("node_md_disk_size_bytes"@[13] == 's');
    assert("node_md_disk_bad_blocks"@[13] == 'b');
    let s = Seq::new(6, |j: int| member_section(device, m, j));
    reading::chained_pushed(s.take(0), s[0]);
    assert(s.take(1) =~= s.take(0).push(s[0]));
    reading::chained_pushed(s.take(1), s[1]);
    assert(s.take(2) =~= s.take(1).push(s[1]));
    reading::chained_pushed(s.take(2), s[2]);
    assert(s.take(3) =~= s.take(2).push(s[2]));
    reading::chained_pushed(s.take(3), s[3]);
    assert(s.take(4) =~= s.take(3).push(s[3]));
    reading::chained_pushed(s.take(4), s[4]);
    assert(s.take(5) =~= s.take(4).push(s[4]));
    reading::chained_pushed(s.take(5), s[5]);
    assert(s.take(6) =~= s.take(5).push(s[5]));
    assert(reading::chained(s.take(0)) =~= Seq::empty());
    assert(Seq::<ReadingView>::empty() + s[0] =~= s[0]);
    assert(s.take(6) =~= s);
    assert(member_readings(device, m) == reading::chained(s));
    match sysfs::said(sysfs::opt(m.state)) {
        Some(state) => {
            names_of_flags(device, m.disk@, text::pieces(state, ','));
        },
        None => {},
    }
    assert forall|j: int| 0 <= j < 6 implies reading::all_named(
        #[trigger] s[j],
        member_section_name(j),
    ) by {}
    let name = member_section_name(k);
    assert forall|j: int| 0 <= j < s.len() && j != k implies reading::none_named(
        #[trigger] s[j],
        name,
    ) by {
        assert(reading::all_named(s[j], member_section_name(j)));
        assert(member_section_name(j) != name);
    }
    reading::of_name_in_one_list(s, k, name);
    reading::of_name_uniform(s[k], name);
}

/// What the files of a member count is reported once, under the name that goes with the file, and
/// with the array and the disk as its labels: errors as a counter, kibibytes in bytes.
#[verifier::rlimit(40)]
pub proof fn members_are_reported_under_their_names(device: Seq<char>, m: MemberFiles)
    ensures
        reading::of_name(member_readings(device, m), "node_md_disk_errors_total"@) == reading::only(
            "node_md_disk_errors_total"@,
            number_in(m.errors),
            Map::empty().insert("device"@, device).insert("disk"@, m.disk@),
            MetricType::Counter,
        ),
        reading::of_name(member_readings(device, m), "node_md_disk_size_bytes"@) == reading::only(
            "node_md_disk_size_bytes"@,
            match sysfs::numbered(sysfs::opt(m.size)) {
                Some(kib) => Some(Value::Product { left: kib as u64, right: 1024 }),
                None => None,
            },
            Map::empty().insert("device"@, device).insert("disk"@, m.disk@),
            MetricType::Gauge,
        ),
{
    let size = match sysfs::numbered(sysfs::opt(m.size)) {
        Some(kib) => Some(kibibytes(kib)),
        None => None,
    };
    let labels = of_disk(device, m.disk@);
    member_section_of(device, m, 1);
    member_section_of(device, m, 2);
    a_gauge_or_none("node_md_disk_size_bytes"@, size, labels);
    a_counter_or_none("node_md_disk_errors_total"@, sysfs::numbered(sysfs::opt(m.errors)), labels);
}

proof fn a_counter_or_none(name: Seq<char>, n: Option<int>, labels: LabelMap)
    ensures
        (match n {
            Some(n) => seq![reading::counter_view(name, Value::Whole(n as u64), labels)],
            None => Seq::empty(),
        }) == reading::only(name, whole(n), labels, MetricType::Counter),
{
}

/// The slot of a member is reported once, as its number, or as -1 where it has none.
#[verifier::rlimit(40)]
pub proof fn slots_are_reported_under_their_name(device: Seq<char>, m: MemberFiles)
    ensures
        reading::of_name(member_readings(device, m), "node_md_disk_slot"@) == reading::only(
            "node_md_disk_slot"@,
            match m.slot {
                Some(s) => match number::signed(text::trimmed(s@)) {
                    Some(n) => Some(Value::Signed(n as i64)),
                    None => Some(Value::Signed(-1i64)),
                },
                None => None,
            },
            Map::empty().insert("device"@, device).insert("disk"@, m.disk@),
            MetricType::Gauge,
        ),
{
    member_section_of(device, m, 3);
    a_gauge_or_none("node_md_disk_slot"@, slot(m), of_disk(device, m.disk@));
}

/// The ranges of bad blocks of a member are counted by their lines, those that are acknowledged
/// under one name and those that are not under another.
#[verifier::rlimit(40)]
pub proof fn bad_blocks_are_reported_under_their_names(device: Seq<char>, m: MemberFiles)
    ensures
        reading::of_name(member_readings(device, m), "node_md_disk_bad_blocks"@) == reading::only(
            "node_md_disk_bad_blocks"@,
            match m.bad_blocks {
                Some(s) => Some(
                    Value::Whole(lines_in(text::pieces(text::trimmed(s@), '\n')) as u64),
                ),
                None => None,
            },
            Map::empty().insert("device"@, device).insert("disk"@, m.disk@),
            MetricType::Gauge,
        ),
        reading::of_name(member_readings(device, m), "node_md_disk_unacknowledged_bad_blocks"@) == reading::only(
            "node_md_disk_unacknowledged_bad_blocks"@,
            match m.unacknowledged_bad_blocks {
                Some(s) => Some(
                    Value::Whole(lines_in(text::pieces(text::trimmed(s@), '\n')) as u64),
                ),
                None => None,
            },
            Map::empty().insert("device"@, device).insert("disk"@, m.disk@),
            MetricType::Gauge,
        ),
{
    member_section_of(device, m, 4);
    member_section_of(device, m, 5);
    a_gauge_or_none(
        "node_md_disk_bad_blocks"@,
        ranges(sysfs::opt(m.bad_blocks)),
        of_disk(device, m.disk@),
    );
    a_gauge_or_none(
        "node_md_disk_unacknowledged_bad_blocks"@,
        ranges(sysfs::opt(m.unacknowledged_bad_blocks)),
        of_disk(device, m.disk@),
    );
}

/// Every flag of a member is reported as 1 under a label of its own, in the order of the flags;
/// nothing is reported of what stands empty between two commas.
pub proof fn flags_are_reported(
    device: Seq<char>,
    disk: Seq<char>,
    flags: Seq<Seq<char>>,
    flag: Seq<char>,
)
    ensures
        flag_readings(device, disk, Seq::empty()) == Seq::<ReadingView>::empty(),
        text::trimmed(flag).len() == 0 ==> flag_readings(device, disk, flags.push(flag))
            == flag_readings(device, disk, flags),
        text::trimmed(flag).len() > 0 ==> flag_readings(device, disk, flags.push(flag))
            == flag_readings(device, disk, flags).push(
            (ReadingView {
                name: "node_md_disk_state"@,
                value: Value::Whole(1),
                labels: Map::empty().insert("device"@, device).insert("disk"@, disk).insert(
                    "state"@,
                    text::trimmed(flag),
                ),
                metric_type: MetricType::Gauge,
            }),
        ),
{
    assert(flags.push(flag).drop_last() =~= flags);
}

/// A list of bad blocks has as many ranges as it has lines that are not blank.
pub proof fn ranges_are_counted_by_lines(lines: Seq<Seq<char>>, line: Seq<char>)
    ensures
        lines_in(Seq::empty()) == 0,
        text::trimmed(line).len() > 0 ==> lines_in(lines.push(line)) == lines_in(lines) + 1,
        text::trimmed(line).len() == 0 ==> lines_in(lines.push(line)) == lines_in(lines),
{
    assert(lines.push(line).drop_last() =~= lines);
}

} // verus!
