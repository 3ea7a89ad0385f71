//! Mounted filesystems: which ones are reported, and what is reported of them.
use vstd::prelude::*;

use crate::collector::reading::{self, Reading, ReadingView};
use crate::labels::{self, Labels};
use crate::path;
use crate::pattern;
use crate::signal::{MetricType, Value};
use crate::text::{self, Order};

verus! {

/// A mount: the device number (`major:minor`), the directory of the filesystem that is
/// mounted, where it is mounted, what it was mounted from and its type.
pub struct Mount {
    pub majmin: String,
    pub root: String,
    pub mount_point: String,
    pub source: Option<String>,
    pub fs_type: String,
}

/// What a mount says.
#[verifier::ext_equal]
pub struct MountView {
    pub majmin: Seq<char>,
    pub root: Seq<char>,
    pub mount_point: Seq<char>,
    pub source: Seq<char>,
    pub fs_type: Seq<char>,
}

impl View for Mount {
    type V = MountView;

    open spec fn view(&self) -> MountView {
        MountView {
            majmin: self.majmin@,
            root: self.root@,
            mount_point: self.mount_point@,
            source: match self.source {
                Some(s) => s@,
                None => Seq::empty(),
            },
            fs_type: self.fs_type@,
        }
    }
}

/// What a list of mounts says.
pub open spec fn mount_views(m: Seq<Mount>) -> Seq<MountView> {
    m.map_values(|x: Mount| x@)
}

/// The types of filesystems that hold nothing on a device. They are never reported.
pub open spec fn pseudo(t: Seq<char>) -> bool {
    t == "sysfs"@ || t == "proc"@ || t == "devtmpfs"@ || t == "devpts"@ || t == "tmpfs"@ || t
        == "securityfs"@ || t == "cgroup"@ || t == "cgroup2"@ || t == "pstore"@ || t == "debugfs"@
        || t == "hugetlbfs"@ || t == "mqueue"@ || t == "configfs"@ || t == "fusectl"@ || t
        == "tracefs"@ || t == "bpf"@ || t == "nsfs"@ || t == "ramfs"@ || t == "rpc_pipefs"@ || t
        == "nfsd"@ || t == "efivarfs"@ || t == "autofs"@ || t == "binfmt_misc"@ || t == "overlay"@
}

/// Whether filesystems of a type are never reported.
pub fn is_pseudo(t: &str) -> (r: bool)
    ensures
        r == pseudo(t@),
{
    text::same(t, "sysfs") || text::same(t, "proc") || text::same(t, "devtmpfs") || text::same(
        t,
        "devpts",
    ) || text::same(t, "tmpfs") || text::same(t, "securityfs") || text::same(t, "cgroup")
        || text::same(t, "cgroup2") || text::same(t, "pstore") || text::same(t, "debugfs")
        || text::same(t, "hugetlbfs") || text::same(t, "mqueue") || text::same(t, "configfs")
        || text::same(t, "fusectl") || text::same(t, "tracefs") || text::same(t, "bpf")
        || text::same(t, "nsfs") || text::same(t, "ramfs") || text::same(t, "rpc_pipefs")
        || text::same(t, "nfsd") || text::same(t, "efivarfs") || text::same(t, "autofs")
        || text::same(t, "binfmt_misc") || text::same(t, "overlay")
}

/// A mount is a candidate: not of a pseudo type, and matched by both filters.
pub open spec fn passes(m: MountView, points: Set<Seq<char>>, types: Set<Seq<char>>) -> bool {
    !pseudo(m.fs_type) && types.contains(m.fs_type) && points.contains(m.mount_point)
}

/// Whether a mount is a candidate, given what the filters say of its mount point and of its
/// type.
pub fn is_candidate(m: &Mount, point_matches: bool, type_matches: bool) -> (r: bool)
    ensures
        r == (!pseudo(m.fs_type@) && type_matches && point_matches),
{
    !is_pseudo(m.fs_type.as_str()) && type_matches && point_matches
}

/// The candidates among some mounts, in their order.
pub open spec fn candidates(
    m: Seq<MountView>,
    points: Set<Seq<char>>,
    types: Set<Seq<char>>,
) -> Seq<MountView>
    decreases m.len(),
{
    if m.len() == 0 {
        Seq::empty()
    } else if passes(m.last(), points, types) {
        candidates(m.drop_last(), points, types).push(m.last())
    } else {
        candidates(m.drop_last(), points, types)
    }
}

/// Of two mounts of a device, one is the better witness: a mount of the whole filesystem
/// over one of a part of it, and otherwise the one that is mounted first in the
/// lexicographic order of the mount points, name by name.
pub open spec fn more_canonical(a: MountView, b: MountView) -> bool {
    if (a.root == "/"@) != (b.root == "/"@) {
        a.root == "/"@
    } else {
        path::path_order(a.mount_point, b.mount_point) == Order::Less
    }
}

/// Whether a mount is a better witness of its device than another one.
pub fn is_more_canonical(a: &Mount, b: &Mount) -> (r: bool)
    ensures
        r == more_canonical(a@, b@),
{
    let whole_a = text::same(a.root.as_str(), "/");
    let whole_b = text::same(b.root.as_str(), "/");
    if whole_a != whole_b {
        whole_a
    } else {
        match path::compare(a.mount_point.as_str(), b.mount_point.as_str()) {
            Order::Less => true,
            _ => false,
        }
    }
}

/// Nothing is a better witness of a mount's device than the mount, and nothing before it
/// is as good.
pub open spec fn canonical(c: Seq<MountView>, i: int) -> bool {
    forall|j: int|
        0 <= j < c.len() && (#[trigger] c[j]).majmin == c[i].majmin ==> !more_canonical(c[j], c[i])
            && (j < i ==> more_canonical(c[i], c[j]))
}

/// The best witnesses among the first `n` of some mounts, in their order.
pub open spec fn witnesses(c: Seq<MountView>, n: int) -> Seq<MountView>
    decreases n,
{
    if n <= 0 {
        Seq::empty()
    } else if canonical(c, n - 1) {
        witnesses(c, n - 1).push(c[n - 1])
    } else {
        witnesses(c, n - 1)
    }
}

/// The mounts that are reported.
pub open spec fn selected(
    m: Seq<MountView>,
    points: Set<Seq<char>>,
    types: Set<Seq<char>>,
    dedupe: bool,
) -> Seq<MountView> {
    let c = candidates(m, points, types);
    if dedupe {
        witnesses(c, c.len() as int)
    } else {
        c
    }
}

fn is_canonical(c: &Vec<Mount>, i: usize) -> (r: bool)
    requires
        i < c@.len(),
    ensures
        r == canonical(mount_views(c@), i as int),
{
    let ghost v = mount_views(c@);
    let mut j: usize = 0;
    while j < c.len()
        invariant
            i < c@.len(),
            j <= c@.len(),
            v == mount_views(c@),
            forall|k: int|
                0 <= k < j && (#[trigger] v[k]).majmin == v[i as int].majmin ==> !more_canonical(
                    v[k],
                    v[i as int],
                ) && (k < i ==> more_canonical(v[i as int], v[k])),
        decreases c@.len() - j,
    {
        assert(v[j as int] == c@[j as int]@);
        assert(v[i as int] == c@[i as int]@);
        if text::same(c[j].majmin.as_str(), c[i].majmin.as_str()) {
            if is_more_canonical(&c[j], &c[i]) {
                return false;
            }
            if j < i && !is_more_canonical(&c[i], &c[j]) {
                return false;
            }
        }
        j = j + 1;
    }
    true
}

fn copied(m: &Mount) -> (r: Mount)
    ensures
        r@ == m@,
{
    Mount {
        majmin: m.majmin.clone(),
        root: m.root.clone(),
        mount_point: m.mount_point.clone(),
        source: match &m.source {
            Some(s) => Some(s.clone()),
            None => None,
        },
        fs_type: m.fs_type.clone(),
    }
}

/// The mounts that are reported: those that are no pseudo-filesystems and that both
/// filters match and, where `dedupe_devices` is set, of these one for each device.
pub fn select(
    mounts: &Vec<Mount>,
    mount_filter: &regex::Regex,
    type_filter: &regex::Regex,
    dedupe_devices: bool,
) -> (r: Vec<Mount>)
    ensures
        mount_views(r@) == selected(
            mount_views(mounts@),
            pattern::language(*mount_filter),
            pattern::language(*type_filter),
            dedupe_devices,
        ),
{
    let ghost all = mount_views(mounts@);
    let ghost points = pattern::language(*mount_filter);
    let ghost types = pattern::language(*type_filter);
    let mut c: Vec<Mount> = Vec::new();
    let mut i: usize = 0;
    assert(mount_views(c@) =~= candidates(all.take(0), points, types));
    while i < mounts.len()
        invariant
            i <= mounts@.len(),
            all == mount_views(mounts@),
            points == pattern::language(*mount_filter),
            types == pattern::language(*type_filter),
            mount_views(c@) == candidates(all.take(i as int), points, types),
        decreases mounts@.len() - i,
    {
        assert(all.take(i + 1).drop_last() =~= all.take(i as int));
        assert(all.take(i + 1).last() == mounts@[i as int]@);
        let m = &mounts[i];
        let point_matches = pattern::is_match(mount_filter, m.mount_point.as_str());
        let type_matches = pattern::is_match(type_filter, m.fs_type.as_str());
        if is_candidate(m, point_matches, type_matches) {
            let ghost before = mount_views(c@);
            c.push(copied(m));
            assert(mount_views(c@) =~= before.push(m@));
        }
        i = i + 1;
    }
    assert(all.take(i as int) =~= all);
    if dedupe_devices {
        dedupe(&c)
    } else {
        c
    }
}

/// Of some candidates, the best witness of each device, in their order.
pub fn dedupe(c: &Vec<Mount>) -> (r: Vec<Mount>)
    ensures
        mount_views(r@) == witnesses(mount_views(c@), c@.len() as int),
{
    let ghost v = mount_views(c@);
    let mut out: Vec<Mount> = Vec::new();
    let mut k: usize = 0;
    assert(mount_views(out@) =~= witnesses(v, 0));
    while k < c.len()
        invariant
            k <= c@.len(),
            v == mount_views(c@),
            mount_views(out@) == witnesses(v, k as int),
        decreases c@.len() - k,
    {
        if is_canonical(c, k) {
            let ghost before = mount_views(out@);
            out.push(copied(&c[k]));
            assert(mount_views(out@) =~= before.push(v[k as int]));
        }
        k = k + 1;
    }
    out
}

// Laws

proof fn witness_index(c: Seq<MountView>, n: int, m: MountView) -> (i: int)
    requires
        0 <= n <= c.len(),
        witnesses(c, n).contains(m),
    ensures
        0 <= i < n,
        c[i] == m,
        canonical(c, i),
    decreases n,
{
    let k = choose|k: int| 0 <= k < witnesses(c, n).len() && witnesses(c, n)[k] == m;
    if n == 0 {
        0
    } else if canonical(c, n - 1) && k == witnesses(c, n - 1).len() {
        n - 1
    } else {
        assert(witnesses(c, n - 1)[k] == m);
        witness_index(c, n - 1, m)
    }
}

proof fn canonical_is_witness(c: Seq<MountView>, n: int, i: int)
    requires
        0 <= i < n <= c.len(),
        canonical(c, i),
    ensures
        witnesses(c, n).contains(c[i]),
    decreases n,
{
    if i == n - 1 {
        let w = witnesses(c, n - 1);
        assert(w.push(c[i])[w.len() as int] == c[i]);
    } else {
        canonical_is_witness(c, n - 1, i);
        let w = witnesses(c, n - 1);
        let k = choose|k: int| 0 <= k < w.len() && w[k] == c[i];
        if canonical(c, n - 1) {
            assert(w.push(c[n - 1])[k] == c[i]);
        }
    }
}

/// The order of mounts that `more_canonical` gives is total up to mounts with the same
/// kind of root and the same mount point.
proof fn canonical_order(a: MountView, b: MountView, c: MountView)
    ensures
        !(more_canonical(a, b) && more_canonical(b, a)),
        more_canonical(a, b) && more_canonical(b, c) ==> more_canonical(a, c),
        !more_canonical(a, b) && !more_canonical(b, a) ==> (a.root == "/"@) == (b.root == "/"@)
            && path::place(a.mount_point) == path::place(b.mount_point) && path::path_names(
            a.mount_point,
        ) == path::path_names(b.mount_point),
{
    let (x, y, z) = (a.mount_point, b.mount_point, c.mount_point);
    path::path_order_mirrored(x, y);
    path::path_order_mirrored(y, x);
    path::path_order_equal(x, y);
    if path::path_order(x, y) == Order::Less && path::path_order(y, z) == Order::Less {
        path::path_order_transitive(x, y, z);
    }
}

/// The position of the best witness of a device among the first `n` candidates.
proof fn best_of(c: Seq<MountView>, n: int, dev: Seq<char>) -> (i: int)
    requires
        0 <= n <= c.len(),
        exists|j: int| 0 <= j < n && (#[trigger] c[j]).majmin == dev,
    ensures
        0 <= i < n,
        c[i].majmin == dev,
        forall|j: int|
            0 <= j < n && (#[trigger] c[j]).majmin == dev ==> !more_canonical(c[j], c[i]) && (j < i
                ==> more_canonical(c[i], c[j])),
    decreases n,
{
    if exists|j: int| 0 <= j < n - 1 && (#[trigger] c[j]).majmin == dev {
        let b = best_of(c, n - 1, dev);
        canonical_order(c[n - 1], c[n - 1], c[b]);
        if c[n - 1].majmin == dev && more_canonical(c[n - 1], c[b]) {
            assert forall|j: int| 0 <= j < n && (#[trigger] c[j]).majmin == dev implies
                !more_canonical(c[j], c[n - 1]) && (j < n - 1 ==> more_canonical(c[n - 1], c[j])) by {
                canonical_order(c[j], c[n - 1], c[b]);
                canonical_order(c[n - 1], c[b], c[j]);
                canonical_order(c[b], c[j], c[n - 1]);
                canonical_order(c[n - 1], c[j], c[b]);
                if j < n - 1 {
                    // Not better than the best so far, so beaten by whatever beats that.
                    beats_what_is_no_better(c[n - 1], c[b], c[j]);
                }
            }
            n - 1
        } else {
            b
        }
    } else {
        canonical_order(c[n - 1], c[n - 1], c[n - 1]);
        n - 1
    }
}

proof fn beats_what_is_no_better(a: MountView, b: MountView, c: MountView)
    requires
        more_canonical(a, b),
        !more_canonical(c, b),
    ensures
        more_canonical(a, c),
        !more_canonical(c, a),
{
    canonical_order(a, b, c);
    canonical_order(c, a, b);
    canonical_order(b, c, a);
    canonical_order(a, c, b);
}

/// Some mount is of a device.
pub open spec fn has_device(m: Seq<MountView>, dev: Seq<char>) -> bool {
    exists|i: int| 0 <= i < m.len() && (#[trigger] m[i]).majmin == dev
}

/// Every device among the candidates is reported, and by one mount only: two mounts that
/// are reported are of different devices.
pub proof fn one_mount_for_each_device(
    m: Seq<MountView>,
    points: Set<Seq<char>>,
    types: Set<Seq<char>>,
    dev: Seq<char>,
)
    ensures
        has_device(candidates(m, points, types), dev) <==> has_device(
            selected(m, points, types, true),
            dev,
        ),
        forall|k: int, l: int|
            0 <= k < l < selected(m, points, types, true).len() ==> (#[trigger] selected(
                m,
                points,
                types,
                true,
            )[k]).majmin != (#[trigger] selected(m, points, types, true)[l]).majmin,
{
    let c = candidates(m, points, types);
    let n = c.len() as int;
    let s = witnesses(c, n);
    if has_device(c, dev) {
        let i = best_of(c, n, dev);
        assert(canonical(c, i));
        canonical_is_witness(c, n, i);
        let k = choose|k: int| 0 <= k < s.len() && s[k] == c[i];
        assert(s[k].majmin == dev);
    }
    if has_device(s, dev) {
        let k = choose|k: int| 0 <= k < s.len() && (#[trigger] s[k]).majmin == dev;
        let i = witness_index(c, n, s[k]);
        assert(c[i].majmin == dev);
    }
    witnesses_distinct(c, n);
}

proof fn witnesses_distinct(c: Seq<MountView>, n: int)
    requires
        0 <= n <= c.len(),
    ensures
        forall|k: int, l: int|
            0 <= k < l < witnesses(c, n).len() ==> (#[trigger] witnesses(c, n)[k]).majmin != (
            #[trigger] witnesses(c, n)[l]).majmin,
    decreases n,
{
    if n > 0 {
        witnesses_distinct(c, n - 1);
        let w = witnesses(c, n - 1);
        if canonical(c, n - 1) {
            assert forall|k: int| 0 <= k < w.len() implies (#[trigger] w[k]).majmin
                != c[n - 1].majmin by {
                let i = witness_index(c, n - 1, w[k]);
                if c[i].majmin == c[n - 1].majmin {
                    // The later one is strictly better, which the earlier one rules out.
                    assert(!more_canonical(c[n - 1], c[i]));
                    assert(more_canonical(c[n - 1], c[i]));
                }
            }
        }
    }
}

proof fn among_candidates(
    m: Seq<MountView>,
    points: Set<Seq<char>>,
    types: Set<Seq<char>>,
    x: MountView,
)
    ensures
        candidates(m, points, types).contains(x) <==> m.contains(x) && passes(x, points, types),
    decreases m.len(),
{
    if m.len() > 0 {
        let l = m.drop_last();
        let c = candidates(l, points, types);
        among_candidates(l, points, types, x);
        assert(m =~= l.push(m.last()));
        assert(m.contains(x) <==> l.contains(x) || x == m.last()) by {
            if l.contains(x) {
                let i = choose|i: int| 0 <= i < l.len() && l[i] == x;
                assert(m[i] == x);
            }
            if x == m.last() {
                assert(m[m.len() - 1] == x);
            }
        }
        if passes(m.last(), points, types) {
            let more = c.push(m.last());
            assert(more.contains(x) <==> c.contains(x) || x == m.last()) by {
                if c.contains(x) {
                    let i = choose|i: int| 0 <= i < c.len() && c[i] == x;
                    assert(more[i] == x);
                }
                if x == m.last() {
                    assert(more[c.len() as int] == x);
                }
            }
        }
    }
}

/// What is reported is mounted, is matched by both filters, and is no pseudo-filesystem,
/// whatever the filters match.
pub proof fn reported_mounts_pass(
    m: Seq<MountView>,
    points: Set<Seq<char>>,
    types: Set<Seq<char>>,
    dedupe: bool,
    x: MountView,
)
    requires
        selected(m, points, types, dedupe).contains(x),
    ensures
        m.contains(x),
        !pseudo(x.fs_type),
        types.contains(x.fs_type),
        points.contains(x.mount_point),
{
    let c = candidates(m, points, types);
    among_candidates(m, points, types, x);
    if dedupe {
        let i = witness_index(c, c.len() as int, x);
        assert(c.contains(c[i]));
    }
}

/// A mount that is reported is the best witness of its device among those that could be.
pub proof fn reported_mount_is_canonical(
    m: Seq<MountView>,
    points: Set<Seq<char>>,
    types: Set<Seq<char>>,
    x: MountView,
    other: MountView,
)
    requires
        selected(m, points, types, true).contains(x),
        m.contains(other),
        passes(other, points, types),
        other.majmin == x.majmin,
    ensures
        !more_canonical(other, x),
{
    let c = candidates(m, points, types);
    let i = witness_index(c, c.len() as int, x);
    among_candidates(m, points, types, other);
    let j = choose|j: int| 0 <= j < c.len() && c[j] == other;
    assert(c[j].majmin == c[i].majmin);
}

/// Nothing that could be reported is a better witness of a mount's device than the mount.
pub open spec fn unbeaten(
    m: Seq<MountView>,
    points: Set<Seq<char>>,
    types: Set<Seq<char>>,
    x: MountView,
) -> bool {
    &&& m.contains(x)
    &&& passes(x, points, types)
    &&& forall|y: MountView| #[trigger]
        m.contains(y) && passes(y, points, types) && y.majmin == x.majmin ==> !more_canonical(y, x)
}

/// Which mounts are reported does not depend on the order in which the system lists them,
/// as long as no device has two different witnesses that are equally good: mounts of the
/// same kind at the same mount point.
pub proof fn selection_ignores_order(
    a: Seq<MountView>,
    b: Seq<MountView>,
    points: Set<Seq<char>>,
    types: Set<Seq<char>>,
    dedupe: bool,
    m: MountView,
)
    requires
        forall|x: MountView| #[trigger] a.contains(x) <==> b.contains(x),
        dedupe ==> forall|x: MountView, y: MountView| #[trigger]
            unbeaten(a, points, types, x) && #[trigger] unbeaten(a, points, types, y) && x.majmin
                == y.majmin ==> x == y,
    ensures
        selected(a, points, types, dedupe).contains(m) <==> selected(
            b,
            points,
            types,
            dedupe,
        ).contains(m),
{
    if dedupe {
        assert forall|x: MountView| #[trigger] unbeaten(b, points, types, x) implies unbeaten(
            a,
            points,
            types,
            x,
        ) by {
            assert(a.contains(x));
            assert forall|y: MountView| #[trigger]
                a.contains(y) && passes(y, points, types) && y.majmin == x.majmin implies
                !more_canonical(y, x) by {
                assert(b.contains(y));
            }
        }
        if selected(a, points, types, true).contains(m) {
            moved_witness(a, b, points, types, m);
        }
        if selected(b, points, types, true).contains(m) {
            moved_witness(b, a, points, types, m);
        }
    } else {
        among_candidates(a, points, types, m);
        among_candidates(b, points, types, m);
    }
}

proof fn witness_is_unbeaten(
    m: Seq<MountView>,
    points: Set<Seq<char>>,
    types: Set<Seq<char>>,
    x: MountView,
)
    requires
        selected(m, points, types, true).contains(x),
    ensures
        unbeaten(m, points, types, x),
{
    reported_mounts_pass(m, points, types, true, x);
    assert forall|y: MountView| #[trigger]
        m.contains(y) && passes(y, points, types) && y.majmin == x.majmin implies !more_canonical(
        y,
        x,
    ) by {
        reported_mount_is_canonical(m, points, types, x, y);
    }
}

proof fn moved_witness(
    a: Seq<MountView>,
    b: Seq<MountView>,
    points: Set<Seq<char>>,
    types: Set<Seq<char>>,
    m: MountView,
)
    requires
        selected(a, points, types, true).contains(m),
        forall|x: MountView| #[trigger] a.contains(x) <==> b.contains(x),
        forall|x: MountView, y: MountView| #[trigger]
            unbeaten(a, points, types, x) && #[trigger] unbeaten(a, points, types, y) && x.majmin
                == y.majmin ==> x == y,
    ensures
        selected(b, points, types, true).contains(m),
{
    witness_is_unbeaten(a, points, types, m);
    let c = candidates(b, points, types);
    let n = c.len() as int;
    among_candidates(b, points, types, m);
    let k = choose|k: int| 0 <= k < n && c[k] == m;
    assert(c[k].majmin == m.majmin);
    let best = best_of(c, n, m.majmin);
    assert(canonical(c, best));
    canonical_is_witness(c, n, best);
    witness_is_unbeaten(b, points, types, c[best]);
    assert(unbeaten(a, points, types, c[best])) by {
        assert(a.contains(c[best]));
        assert forall|y: MountView| #[trigger]
            a.contains(y) && passes(y, points, types) && y.majmin == c[best].majmin implies
            !more_canonical(y, c[best]) by {
            assert(b.contains(y));
        }
    }
}

// Readings

/// The figures of a filesystem: the size of a block in bytes, and blocks and files in
/// all and free.
#[derive(Debug, Clone, Copy, PartialEq, Eq, Structural)]
pub struct FsStat {
    pub fragment_size: u64,
    pub blocks: u64,
    pub blocks_free: u64,
    pub blocks_available: u64,
    pub files: u64,
    pub files_free: u64,
}

/// A mount with its figures, where the system gave them.
pub struct MeasuredMount {
    pub mount: Mount,
    pub stat: Option<FsStat>,
}

/// The labels of a mount.
pub open spec fn mount_labels(m: MountView) -> Map<Seq<char>, Seq<char>> {
    Map::empty().insert("device"@, m.source).insert("mountpoint"@, m.mount_point).insert(
        "fstype"@,
        m.fs_type,
    )
}

fn labels_of(m: &Mount) -> (l: Labels)
    ensures
        l@ == mount_labels(m@),
{
    let mut l = match &m.source {
        Some(s) => labels::one_label("device", s.as_str()),
        None => {
            let none = String::new();
            assert(none@ =~= Seq::empty());
            labels::one_label("device", none.as_str())
        },
    };
    labels::set_label(&mut l, "mountpoint", m.mount_point.as_str());
    labels::set_label(&mut l, "fstype", m.fs_type.as_str());
    l
}

/// What is reported of a mount.
pub open spec fn mount_readings(m: MountView, s: FsStat) -> Seq<ReadingView> {
    let l = mount_labels(m);
    seq![
        reading::gauge_view(
            "node_filesystem_size_bytes"@,
            Value::Product { left: s.blocks, right: s.fragment_size },
            l,
        ),
        reading::gauge_view(
            "node_filesystem_free_bytes"@,
            Value::Product { left: s.blocks_free, right: s.fragment_size },
            l,
        ),
        reading::gauge_view(
            "node_filesystem_avail_bytes"@,
            Value::Product { left: s.blocks_available, right: s.fragment_size },
            l,
        ),
        reading::gauge_view("node_filesystem_files"@, Value::Whole(s.files), l),
        reading::gauge_view("node_filesystem_files_free"@, Value::Whole(s.files_free), l),
    ]
}

/// What is reported of one mount.
pub fn collect_mount(m: &Mount, s: FsStat) -> (r: Vec<Reading>)
    ensures
        reading::reading_views(r@) == mount_readings(m@, s),
{
    let mut out: Vec<Reading> = Vec::new();
    assert(reading::reading_views(out@) =~= Seq::empty());
    reading::push(
        &mut out,
        reading::gauge(
            "node_filesystem_size_bytes",
            Value::Product { left: s.blocks, right: s.fragment_size },
            labels_of(m),
        ),
    );
    reading::push(
        &mut out,
        reading::gauge(
            "node_filesystem_free_bytes",
            Value::Product { left: s.blocks_free, right: s.fragment_size },
            labels_of(m),
        ),
    );
    reading::push(
        &mut out,
        reading::gauge(
            "node_filesystem_avail_bytes",
            Value::Product { left: s.blocks_available, right: s.fragment_size },
            labels_of(m),
        ),
    );
    reading::push(
        &mut out,
        reading::gauge("node_filesystem_files", Value::Whole(s.files), labels_of(m)),
    );
    reading::push(
        &mut out,
        reading::gauge("node_filesystem_files_free", Value::Whole(s.files_free), labels_of(m)),
    );
    assert(reading::reading_views(out@) =~= mount_readings(m@, s));
    out
}

/// What is reported of some mounts, one after the other. A mount without figures is left
/// out.
pub open spec fn mounts_readings(m: Seq<MeasuredMount>) -> Seq<ReadingView>
    decreases m.len(),
{
    if m.len() == 0 {
        Seq::empty()
    } else {
        mounts_readings(m.drop_last()) + match m.last().stat {
            Some(s) => mount_readings(m.last().mount@, s),
            None => Seq::empty(),
        }
    }
}

/// What is reported of the mounts that were selected.
pub fn collect(mounts: &Vec<MeasuredMount>) -> (r: Vec<Reading>)
    ensures
        reading::reading_views(r@) == mounts_readings(mounts@),
{
    let mut out: Vec<Reading> = Vec::new();
    let mut i: usize = 0;
    assert(reading::reading_views(out@) =~= mounts_readings(mounts@.take(0)));
    while i < mounts.len()
        invariant
            i <= mounts@.len(),
            reading::reading_views(out@) == mounts_readings(mounts@.take(i as int)),
        decreases mounts@.len() - i,
    {
        assert(mounts@.take(i + 1).drop_last() =~= mounts@.take(i as int));
        assert(mounts@.take(i + 1).last() == mounts@[i as int]);
        match mounts[i].stat {
            Some(s) => {
                let mut more = collect_mount(&mounts[i].mount, s);
                reading::append(&mut out, &mut more);
            },
            None => {},
        }
        assert(reading::reading_views(out@) =~= mounts_readings(mounts@.take(i + 1)));
        i = i + 1;
    }
    assert(mounts@.take(i as int) =~= mounts@);
    out
}

// Laws of the readings

/// Every figure of a mount is reported once, under its own name: blocks in bytes, files as they
/// are counted. The labels are where the filesystem comes from, where it is mounted and its
/// type, each under its own name.
pub proof fn every_figure_is_reported_under_its_name(m: MountView, s: FsStat)
    ensures
        reading::of_name(mount_readings(m, s), "node_filesystem_size_bytes"@) == reading::only(
            "node_filesystem_size_bytes"@,
            Some(Value::Product { left: s.blocks, right: s.fragment_size }),
            mount_labels(m),
            MetricType::Gauge,
        ),
        reading::of_name(mount_readings(m, s), "node_filesystem_free_bytes"@) == reading::only(
            "node_filesystem_free_bytes"@,
            Some(Value::Product { left: s.blocks_free, right: s.fragment_size }),
            mount_labels(m),
            MetricType::Gauge,
        ),
        reading::of_name(mount_readings(m, s), "node_filesystem_avail_bytes"@) == reading::only(
            "node_filesystem_avail_bytes"@,
            Some(Value::Product { left: s.blocks_available, right: s.fragment_size }),
            mount_labels(m),
            MetricType::Gauge,
        ),
        reading::of_name(mount_readings(m, s), "node_filesystem_files"@) == reading::only(
            "node_filesystem_files"@,
            Some(Value::Whole(s.files)),
            mount_labels(m),
            MetricType::Gauge,
        ),
        reading::of_name(mount_readings(m, s), "node_filesystem_files_free"@) == reading::only(
            "node_filesystem_files_free"@,
            Some(Value::Whole(s.files_free)),
            mount_labels(m),
            MetricType::Gauge,
        ),
        mount_labels(m)["device"@] == m.source,
        mount_labels(m)["mountpoint"@] == m.mount_point,
        mount_labels(m)["fstype"@] == m.fs_type,
{
    reveal_strlit("node_filesystem_size_bytes");
    reveal_strlit("node_filesystem_free_bytes");
    reveal_strlit("node_filesystem_avail_bytes");
    reveal_strlit("node_filesystem_files");
    reveal_strlit("node_filesystem_files_free");
    reveal_strlit("device");
    reveal_strlit("mountpoint");
    reveal_strlit("fstype");
    assert("node_filesystem_size_bytes"@.len() == 26);
    assert("node_filesystem_free_bytes"@.len() == 26);
    assert("node_filesystem_avail_bytes"@.len() == 27);
    assert("node_filesystem_files"@.len() == 21);
    assert("node_filesystem_files_free"@.len() == 26);
    assert("device"@.len() == 6);
    assert("mountpoint"@.len() == 10);
    assert("fstype"@.len() == 6);
    assert("node_filesystem_size_bytes"@[18] == 'z');
    assert("node_filesystem_free_bytes"@[18] == 'e');
    assert("node_filesystem_files_free"@[18] == 'l');
    assert("device"@[0] == 'd');
    assert("fstype"@[0] == 'f');
    let r = mount_readings(m, s);
    reading::a_reading_of_its_own_name(r, 0);
    reading::a_reading_of_its_own_name(r, 1);
    reading::a_reading_of_its_own_name(r, 2);
    reading::a_reading_of_its_own_name(r, 3);
    reading::a_reading_of_its_own_name(r, 4);
}

/// What is reported of some mounts is what each of those with figures says, and nothing else.
pub proof fn every_measured_mount_is_reported(m: Seq<MeasuredMount>, r: ReadingView)
    ensures
        mounts_readings(m).contains(r) <==> exists|i: int|
            0 <= i < m.len() && ((#[trigger] m[i]).stat matches Some(s) && mount_readings(
                m[i].mount@,
                s,
            ).contains(r)),
    decreases m.len(),
{
    if m.len() > 0 {
        let t = m.drop_last();
        every_measured_mount_is_reported(t, r);
        assert(m[m.len() - 1] == m.last());
        assert(forall|i: int| 0 <= i < t.len() ==> #[trigger] t[i] == m[i]);
        let own = match m.last().stat {
            Some(s) => mount_readings(m.last().mount@, s),
            None => Seq::empty(),
        };
        reading::joined_contains(mounts_readings(t), own, r);
        if mounts_readings(t).contains(r) {
            let i = choose|i: int|
                0 <= i < t.len() && ((#[trigger] t[i]).stat matches Some(s) && mount_readings(
                    t[i].mount@,
                    s,
                ).contains(r));
            assert(m[i] == t[i]);
        }
        if exists|i: int|
            0 <= i < m.len() && ((#[trigger] m[i]).stat matches Some(s) && mount_readings(
                m[i].mount@,
                s,
            ).contains(r)) {
            let i = choose|i: int|
                0 <= i < m.len() && ((#[trigger] m[i]).stat matches Some(s) && mount_readings(
                    m[i].mount@,
                    s,
                ).contains(r));
            if i < t.len() {
                assert(t[i] == m[i]);
            }
        }
    }
}

/// The types of filesystems that are never reported are these, and no others.
pub proof fn pseudo_types_are_these(t: Seq<char>)
    ensures
        pseudo(t) <==> seq![
            "sysfs"@,
            "proc"@,
            "devtmpfs"@,
            "devpts"@,
            "tmpfs"@,
            "securityfs"@,
            "cgroup"@,
            "cgroup2"@,
            "pstore"@,
            "debugfs"@,
            "hugetlbfs"@,
            "mqueue"@,
            "configfs"@,
            "fusectl"@,
            "tracefs"@,
            "bpf"@,
            "nsfs"@,
            "ramfs"@,
            "rpc_pipefs"@,
            "nfsd"@,
            "efivarfs"@,
            "autofs"@,
            "binfmt_misc"@,
            "overlay"@,
        ].contains(t),
{
    let all = seq![
        "sysfs"@,
        "proc"@,
        "devtmpfs"@,
        "devpts"@,
        "tmpfs"@,
        "securityfs"@,
        "cgroup"@,
        "cgroup2"@,
        "pstore"@,
        "debugfs"@,
        "hugetlbfs"@,
        "mqueue"@,
        "configfs"@,
        "fusectl"@,
        "tracefs"@,
        "bpf"@,
        "nsfs"@,
        "ramfs"@,
        "rpc_pipefs"@,
        "nfsd"@,
        "efivarfs"@,
        "autofs"@,
        "binfmt_misc"@,
        "overlay"@,
    ];
    assert(all[0] == "sysfs"@);
    assert(all[1] == "proc"@);
    assert(all[2] == "devtmpfs"@);
    assert(all[3] == "devpts"@);
    assert(all[4] == "tmpfs"@);
    assert(all[5] == "securityfs"@);
    assert(all[6] == "cgroup"@);
    assert(all[7] == "cgroup2"@);
    assert(all[8] == "pstore"@);
    assert(all[9] == "debugfs"@);
    assert(all[10] == "hugetlbfs"@);
    assert(all[11] == "mqueue"@);
    assert(all[12] == "configfs"@);
    assert(all[13] == "fusectl"@);
    assert(all[14] == "tracefs"@);
    assert(all[15] == "bpf"@);
    assert(all[16] == "nsfs"@);
    assert(all[17] == "ramfs"@);
    assert(all[18] == "rpc_pipefs"@);
    assert(all[19] == "nfsd"@);
    assert(all[20] == "efivarfs"@);
    assert(all[21] == "autofs"@);
    assert(all[22] == "binfmt_misc"@);
    assert(all[23] == "overlay"@);
    if all.contains(t) {
        let k = choose|k: int| 0 <= k < all.len() && all[k] == t;
        assert(pseudo(all[k]));
    }
}

/// A mount is reported wherever there is one mount for each device anyway, or all are asked for,
/// as long as it is no pseudo-filesystem and both filters match it.
pub proof fn matching_mounts_are_reported(
    m: Seq<MountView>,
    points: Set<Seq<char>>,
    types: Set<Seq<char>>,
    x: MountView,
)
    requires
        m.contains(x),
        !pseudo(x.fs_type),
        types.contains(x.fs_type),
        points.contains(x.mount_point),
    ensures
        selected(m, points, types, false).contains(x),
        (forall|y: MountView| #[trigger] m.contains(y) && y.majmin == x.majmin ==> y == x)
            ==> selected(m, points, types, true).contains(x),
{
    among_candidates(m, points, types, x);
    if forall|y: MountView| #[trigger] m.contains(y) && y.majmin == x.majmin ==> y == x {
        one_mount_for_each_device(m, points, types, x.majmin);
        let c = candidates(m, points, types);
        let k = choose|k: int| 0 <= k < c.len() && c[k] == x;
        assert(c[k].majmin == x.majmin);
        assert(has_device(c, x.majmin));
        let s = selected(m, points, types, true);
        let i = choose|i: int| 0 <= i < s.len() && (#[trigger] s[i]).majmin == x.majmin;
        assert(s.contains(s[i]));
        reported_mounts_pass(m, points, types, true, s[i]);
        assert(m.contains(s[i]));
    }
}

/// Of two mounts of a device, one of the whole filesystem is the better witness whatever their
/// mount points are, and between equals it is the one whose mount point comes first.
pub proof fn the_whole_filesystem_is_the_better_witness(a: MountView, b: MountView)
    ensures
        a.root == "/"@ && b.root != "/"@ ==> more_canonical(a, b) && !more_canonical(b, a),
        a.root == "/"@ && b.root == "/"@ ==> (more_canonical(a, b) <==> path::path_order(
            a.mount_point,
            b.mount_point,
        ) == Order::Less),
        a.root != "/"@ && b.root != "/"@ ==> (more_canonical(a, b) <==> path::path_order(
            a.mount_point,
            b.mount_point,
        ) == Order::Less),
{
}

} // verus!
