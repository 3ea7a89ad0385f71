//! The pipeline: when collectors run, and when what they collected is submitted.
//!
//! The loop around the scheduler asks `tick` what to start and what to do next, does that,
//! and reports what happened with `handle_result` or `shutdown`.
use vstd::arithmetic::div_mod::lemma_fundamental_div_mod;
use vstd::prelude::*;

use crate::config::{self, CollectorConfig};
use crate::signal::{self, Metric, MetricView};
use crate::text;
use crate::time::{Deadline, Duration, Instant};

verus! {

/// How long what was collected waits for slower collectors, in nanoseconds from the start
/// of its collection.
pub const SOFT_DEADLINE_NANOS: u64 = 1_000_000_000;

/// A collector with its cadence.
pub struct Scheduled {
    pub name: String,
    pub interval: Duration,
    pub next_run: Deadline,
    /// A collection is under way.
    pub active: bool,
}

/// What the state of a collector says.
pub struct ScheduledView {
    pub name: Seq<char>,
    pub interval: nat,
    pub next_run: nat,
    pub active: bool,
}

impl View for Scheduled {
    type V = ScheduledView;

    open spec fn view(&self) -> ScheduledView {
        ScheduledView {
            name: self.name@,
            interval: self.interval@,
            next_run: self.next_run@,
            active: self.active,
        }
    }
}

/// What was collected and not yet submitted.
pub struct Finished {
    pub metrics: Vec<Metric>,
    pub soft_deadline_at: Deadline,
}

/// What a finished collection says.
pub struct FinishedView {
    pub metrics: Seq<MetricView>,
    pub soft_deadline_at: nat,
}

impl View for Finished {
    type V = FinishedView;

    open spec fn view(&self) -> FinishedView {
        FinishedView {
            metrics: signal::metric_views(self.metrics@),
            soft_deadline_at: self.soft_deadline_at@,
        }
    }
}

/// The state of the scheduler.
pub struct Scheduler {
    scheduleds: Vec<Scheduled>,
    finished: Vec<Finished>,
}

/// What the state of the scheduler says.
pub struct SchedulerView {
    pub scheduleds: Seq<ScheduledView>,
    pub finished: Seq<FinishedView>,
}

/// What a list of collectors says.
pub open spec fn scheduled_views(s: Seq<Scheduled>) -> Seq<ScheduledView> {
    s.map_values(|x: Scheduled| x@)
}

/// What a list of finished collections says.
pub open spec fn finished_views(f: Seq<Finished>) -> Seq<FinishedView> {
    f.map_values(|x: Finished| x@)
}

impl View for Scheduler {
    type V = SchedulerView;

    closed spec fn view(&self) -> SchedulerView {
        SchedulerView {
            scheduleds: scheduled_views(self.scheduleds@),
            finished: finished_views(self.finished@),
        }
    }
}

// Cadence

/// The first point behind `now` that is a whole number of intervals behind `next_run`.
pub open spec fn next_due(next_run: nat, interval: nat, now: nat) -> nat {
    if next_run <= now {
        next_run + ((now - next_run) as nat / interval + 1) * interval
    } else {
        next_run
    }
}

/// The next point of a cadence lies behind the present, at most an interval away, and in
/// step with the points before it: runs that were missed are passed over, not made up for.
pub proof fn cadence_is_kept(next_run: nat, interval: nat, now: nat)
    requires
        interval > 0,
        next_run <= now,
    ensures
        now < next_due(next_run, interval, now),
        next_due(next_run, interval, now) <= now + interval,
        (next_due(next_run, interval, now) - next_run) % (interval as int) == 0,
{
    let gap = now - next_run;
    let i = interval as int;
    lemma_fundamental_div_mod(gap, i);
    let k = gap / i;
    assert((k + 1) * i == k * i + i) by (nonlinear_arith);
    assert(k * i == i * k) by (nonlinear_arith);
    vstd::arithmetic::div_mod::lemma_mod_multiples_basic(k + 1, i);
}

fn next_due_at(next_run: Deadline, interval: Duration, now: Instant) -> (d: Deadline)
    requires
        interval@ > 0,
        next_run@ <= now@,
    ensures
        d@ == next_due(next_run@, interval@, now@),
{
    let i: u128 = interval.as_nanos();
    let gap: u128 = now.nanos as u128 - next_run.nanos;
    let k: u128 = gap / i;
    proof {
        cadence_is_kept(next_run@, interval@, now@);
        lemma_fundamental_div_mod(gap as int, i as int);
        assert((k + 1) * i == k * i + i) by (nonlinear_arith);
        assert(k * i == i * k) by (nonlinear_arith);
        assert(0 <= k * i) by (nonlinear_arith)
            requires
                0 <= k,
                0 <= i,
        ;
    }
    let ahead: u128 = (k + 1) * i;
    Deadline { nanos: next_run.nanos + ahead }
}

// Decisions

impl ScheduledView {
    /// The collector is idle and its time has come.
    pub open spec fn due(self, now: nat) -> bool {
        !self.active && self.next_run <= now
    }

    /// The state once everything that is due has been started.
    pub open spec fn started(self, now: nat) -> ScheduledView {
        if self.due(now) {
            ScheduledView {
                next_run: next_due(self.next_run, self.interval, now),
                active: true,
                ..self
            }
        } else {
            self
        }
    }
}

/// The positions of the collectors that are due, among the first `n`.
pub open spec fn due_positions(s: Seq<ScheduledView>, now: nat, n: int) -> Seq<int>
    decreases n,
{
    if n <= 0 {
        Seq::empty()
    } else if s[n - 1].due(now) {
        due_positions(s, now, n - 1).push(n - 1)
    } else {
        due_positions(s, now, n - 1)
    }
}

/// Some collection is under way.
pub open spec fn any_active(s: Seq<ScheduledView>) -> bool {
    exists|i: int| 0 <= i < s.len() && (#[trigger] s[i]).active
}

/// The earliest of some points in time.
pub open spec fn earliest(points: Seq<nat>) -> Option<nat>
    decreases points.len(),
{
    if points.len() == 0 {
        None
    } else {
        match earliest(points.drop_last()) {
            Some(p) => Some(
                if p <= points.last() {
                    p
                } else {
                    points.last()
                },
            ),
            None => Some(points.last()),
        }
    }
}

/// The deadlines of finished collections.
pub open spec fn soft_deadlines(f: Seq<FinishedView>) -> Seq<nat> {
    f.map_values(|x: FinishedView| x.soft_deadline_at)
}

/// The next runs of idle collectors.
pub open spec fn idle_runs(s: Seq<ScheduledView>) -> Seq<nat>
    decreases s.len(),
{
    if s.len() == 0 {
        Seq::empty()
    } else if s.last().active {
        idle_runs(s.drop_last())
    } else {
        idle_runs(s.drop_last()).push(s.last().next_run)
    }
}

/// The metrics of some finished collections, one collection after the other.
pub open spec fn batched(f: Seq<FinishedView>) -> Seq<MetricView>
    decreases f.len(),
{
    if f.len() == 0 {
        Seq::empty()
    } else {
        batched(f.drop_last()) + f.last().metrics
    }
}

impl SchedulerView {
    /// There is something to submit, and nothing left to wait for: no collection is under
    /// way, or something has waited long enough.
    pub open spec fn ready(self, now: nat) -> bool {
        &&& self.finished.len() > 0
        &&& !any_active(self.scheduleds) || (earliest(soft_deadlines(self.finished)) matches Some(d)
            && d <= now)
    }

    /// The state once everything that is due has been started.
    pub open spec fn started(self, now: nat) -> SchedulerView {
        SchedulerView {
            scheduleds: self.scheduleds.map_values(|s: ScheduledView| s.started(now)),
            ..self
        }
    }

    /// The state once everything that was collected has been submitted.
    pub open spec fn emitted(self) -> SchedulerView {
        SchedulerView { finished: Seq::empty(), ..self }
    }

    /// The position of the first collector with a name.
    pub open spec fn position(self, name: Seq<char>) -> Option<int> {
        first_named(self.scheduleds, name, 0)
    }

    /// The state after a collection that was started at a point in time has come to an end,
    /// with metrics or without.
    pub open spec fn collected(
        self,
        name: Seq<char>,
        started_at: nat,
        metrics: Option<Seq<MetricView>>,
    ) -> SchedulerView {
        SchedulerView {
            scheduleds: match self.position(name) {
                Some(i) => self.scheduleds.update(
                    i,
                    ScheduledView { active: false, ..self.scheduleds[i] },
                ),
                None => self.scheduleds,
            },
            finished: match metrics {
                Some(m) => if m.len() > 0 {
                    self.finished.push(
                        FinishedView {
                            metrics: m,
                            soft_deadline_at: started_at + SOFT_DEADLINE_NANOS as nat,
                        },
                    )
                } else {
                    self.finished
                },
                None => self.finished,
            },
        }
    }

    /// The state after every collection that is under way has been given up.
    pub open spec fn aborted(self) -> SchedulerView {
        SchedulerView {
            scheduleds: self.scheduleds.map_values(
                |s: ScheduledView| ScheduledView { active: false, ..s },
            ),
            ..self
        }
    }

    /// Collectors have an interval and a name of their own, and nothing is kept that is empty.
    pub open spec fn valid(self) -> bool {
        &&& forall|i: int, j: int|
            0 <= i < j < self.scheduleds.len() ==> (#[trigger] self.scheduleds[i]).name != (
            #[trigger] self.scheduleds[j]).name
        &&& forall|i: int|
            0 <= i < self.scheduleds.len() ==> (#[trigger] self.scheduleds[i]).interval > 0
        &&& forall|i: int|
            0 <= i < self.finished.len() ==> (#[trigger] self.finished[i]).metrics.len() > 0
    }
}

/// The first position from `from` on of a collector with a name.
pub open spec fn first_named(s: Seq<ScheduledView>, name: Seq<char>, from: int) -> Option<int>
    decreases s.len() - from,
{
    if from >= s.len() || from < 0 {
        None
    } else if s[from].name == name {
        Some(from)
    } else {
        first_named(s, name, from + 1)
    }
}

/// What the loop does next.
pub enum Next {
    /// Submit a batch, and ask again.
    Emit(Vec<Metric>),
    /// Wait until a collection ends, until the first of these deadlines, or until the
    /// agent is shut down.
    Wait { soft: Option<Deadline>, due: Option<Deadline> },
    /// There is nothing left to do.
    Stop,
}

/// A deadline that may be there is a point in time that may be there.
pub open spec fn point(d: Option<Deadline>) -> Option<nat> {
    match d {
        Some(d) => Some(d@),
        None => None,
    }
}

fn earlier(a: Option<Deadline>, b: Deadline) -> (r: Option<Deadline>)
    ensures
        point(r) == Some(
            match a {
                Some(x) => if x@ <= b@ {
                    x@
                } else {
                    b@
                },
                None => b@,
            },
        ),
{
    match a {
        Some(x) => if x.nanos <= b.nanos {
            Some(x)
        } else {
            Some(b)
        },
        None => Some(b),
    }
}

impl Scheduler {
    #[verifier::type_invariant]
    spec fn inv(self) -> bool {
        &&& forall|i: int, j: int|
            0 <= i < j < self.scheduleds@.len() ==> (#[trigger] self.scheduleds@[i]).name@ != (
            #[trigger] self.scheduleds@[j]).name@
        &&& forall|i: int|
            0 <= i < self.scheduleds@.len() ==> (#[trigger] self.scheduleds@[i]).interval@ > 0
        &&& forall|i: int|
            0 <= i < self.finished@.len() ==> (#[trigger] self.finished@[i]).metrics@.len() > 0
    }

    proof fn inv_is_valid(self)
        requires
            self.inv(),
        ensures
            self@.valid(),
    {
        let v = self@;
        assert forall|i: int, j: int| 0 <= i < j < v.scheduleds.len() implies (
        #[trigger] v.scheduleds[i]).name != (#[trigger] v.scheduleds[j]).name by {
            assert(v.scheduleds[i] == self.scheduleds@[i]@);
            assert(v.scheduleds[j] == self.scheduleds@[j]@);
        }
        assert forall|i: int| 0 <= i < v.scheduleds.len() implies (
        #[trigger] v.scheduleds[i]).interval > 0 by {
            assert(v.scheduleds[i] == self.scheduleds@[i]@);
        }
        assert forall|i: int| 0 <= i < v.finished.len() implies (#[trigger] v.finished[i]).metrics.len()
            > 0 by {
            assert(v.finished[i] == self.finished@[i]@);
        }
    }

    /// A scheduler for some collectors, each with its interval. All are due at once. A
    /// collector is known by its name, which no other one has.
    pub fn new(collectors: Vec<(String, Duration)>, now: Instant) -> (s: Scheduler)
        requires
            config::named_once(collectors@),
            forall|i: int| 0 <= i < collectors@.len() ==> (#[trigger] collectors@[i]).1@ > 0,
        ensures
            s@.valid(),
            s@.finished == Seq::<FinishedView>::empty(),
            s@.scheduleds == collectors@.map_values(
                |c: (String, Duration)| ScheduledView {
                    name: c.0@,
                    interval: c.1@,
                    next_run: now@,
                    active: false,
                },
            ),
    {
        let mut scheduleds: Vec<Scheduled> = Vec::new();
        for c in it: collectors
            invariant
                it.seq() == collectors@,
                scheduleds@.len() == it.index(),
                forall|i: int|
                    0 <= i < it.index() ==> (#[trigger] scheduleds@[i])@ == (ScheduledView {
                        name: collectors@[i].0@,
                        interval: collectors@[i].1@,
                        next_run: now@,
                        active: false,
                    }),
        {
            let next_run = Deadline { nanos: now.nanos as u128 };
            scheduleds.push(Scheduled { name: c.0, interval: c.1, next_run, active: false });
        }
        let finished: Vec<Finished> = Vec::new();
        assert(finished_views(finished@) =~= Seq::empty());
        assert forall|i: int| 0 <= i < scheduleds@.len() implies (
        #[trigger] scheduleds@[i]).interval@ > 0 by {
            assert(scheduleds@[i]@.interval == collectors@[i].1@);
        }
        assert forall|i: int, j: int| 0 <= i < j < scheduleds@.len() implies (
        #[trigger] scheduleds@[i]).name@ != (#[trigger] scheduleds@[j]).name@ by {
            assert(scheduleds@[i]@.name == collectors@[i].0@);
            assert(scheduleds@[j]@.name == collectors@[j].0@);
        }
        let s = Scheduler { scheduleds, finished };
        proof {
            s.inv_is_valid();
        }
        assert(s@.scheduleds =~= collectors@.map_values(
            |c: (String, Duration)| ScheduledView {
                name: c.0@,
                interval: c.1@,
                next_run: now@,
                active: false,
            },
        ));
        s
    }

    /// Starts what is due: the positions of the collectors to start.
    pub fn start_due(&mut self, now: Instant) -> (r: Vec<usize>)
        ensures
            old(self)@.valid(),
            final(self)@.valid(),
            final(self)@ == old(self)@.started(now@),
            r@.map_values(|i: usize| i as int) == due_positions(
                old(self)@.scheduleds,
                now@,
                old(self)@.scheduleds.len() as int,
            ),
    {
        proof {
            use_type_invariant(&*self);
            self.inv_is_valid();
        }
        let ghost before = self@;
        let ghost was = self.scheduleds@;
        let mut out: Vec<usize> = Vec::new();
        let mut list: Vec<Scheduled> = Vec::new();
        std::mem::swap(&mut list, &mut self.scheduleds);
        let n: usize = list.len();
        let mut i: usize = 0;
        assert(out@.map_values(|i: usize| i as int) =~= Seq::empty());
        while i < n
            invariant
                i <= n,
                n == list@.len(),
                was.len() == n,
                before.scheduleds == scheduled_views(was),
                before.valid(),
                forall|k: int| 0 <= k < i ==> (#[trigger] list@[k])@ == was[k]@.started(now@),
                forall|k: int| i <= k < n ==> #[trigger] list@[k] == was[k],
                out@.map_values(|i: usize| i as int) == due_positions(
                    before.scheduleds,
                    now@,
                    i as int,
                ),
            decreases n - i,
        {
            assert(before.scheduleds[i as int] == was[i as int]@);
            if !list[i].active && now.reached(list[i].next_run) {
                let next = next_due_at(list[i].next_run, list[i].interval, now);
                let ghost had = out@.map_values(|i: usize| i as int);
                let entry = Scheduled {
                    name: list[i].name.clone(),
                    interval: list[i].interval,
                    next_run: next,
                    active: true,
                };
                list[i] = entry;
                out.push(i);
                assert(out@.map_values(|i: usize| i as int) =~= had.push(i as int));
            }
            i = i + 1;
        }
        assert forall|k: int| 0 <= k < list@.len() implies (#[trigger] list@[k]).interval@ > 0 by {
            assert(list@[k]@ == was[k]@.started(now@));
            assert(before.scheduleds[k] == was[k]@);
        }
        assert forall|k: int, l: int| 0 <= k < l < list@.len() implies (
        #[trigger] list@[k]).name@ != (#[trigger] list@[l]).name@ by {
            assert(list@[k]@.name == before.scheduleds[k].name);
            assert(list@[l]@.name == before.scheduleds[l].name);
        }
        assert(scheduled_views(list@) =~= before.started(now@).scheduleds);
        self.scheduleds = list;
        proof {
            self.inv_is_valid();
        }
        out
    }

    fn some_active(&self) -> (r: bool)
        ensures
            r == any_active(self@.scheduleds),
    {
        let mut i: usize = 0;
        while i < self.scheduleds.len()
            invariant
                i <= self.scheduleds@.len(),
                forall|k: int| 0 <= k < i ==> !(#[trigger] self@.scheduleds[k]).active,
            decreases self.scheduleds@.len() - i,
        {
            assert(self@.scheduleds[i as int] == self.scheduleds@[i as int]@);
            if self.scheduleds[i].active {
                return true;
            }
            i = i + 1;
        }
        false
    }

    fn earliest_soft(&self) -> (r: Option<Deadline>)
        ensures
            point(r) == earliest(soft_deadlines(self@.finished)),
    {
        let ghost all = soft_deadlines(self@.finished);
        let mut r: Option<Deadline> = None;
        let mut i: usize = 0;
        assert(all.take(0) =~= Seq::empty());
        while i < self.finished.len()
            invariant
                i <= self.finished@.len(),
                all == soft_deadlines(self@.finished),
                all.len() == self.finished@.len(),
                point(r) == earliest(all.take(i as int)),
            decreases self.finished@.len() - i,
        {
            assert(all.take(i + 1).drop_last() =~= all.take(i as int));
            assert(all.take(i + 1).last() == self.finished@[i as int].soft_deadline_at@);
            r = earlier(r, self.finished[i].soft_deadline_at);
            i = i + 1;
        }
        assert(all.take(i as int) =~= all);
        r
    }

    fn earliest_run(&self) -> (r: Option<Deadline>)
        ensures
            point(r) == earliest(idle_runs(self@.scheduleds)),
    {
        let ghost all = self@.scheduleds;
        let mut r: Option<Deadline> = None;
        let mut i: usize = 0;
        assert(all.take(0) =~= Seq::empty());
        while i < self.scheduleds.len()
            invariant
                i <= self.scheduleds@.len(),
                all == self@.scheduleds,
                all.len() == self.scheduleds@.len(),
                point(r) == earliest(idle_runs(all.take(i as int))),
            decreases self.scheduleds@.len() - i,
        {
            assert(all.take(i + 1).drop_last() =~= all.take(i as int));
            assert(all.take(i + 1).last() == self.scheduleds@[i as int]@);
            if !self.scheduleds[i].active {
                let ghost runs = idle_runs(all.take(i as int));
                let ghost here = self.scheduleds@[i as int].next_run@;
                assert(runs.push(here).drop_last() =~= runs);
                r = earlier(r, self.scheduleds[i].next_run);
            }
            i = i + 1;
        }
        assert(all.take(i as int) =~= all);
        r
    }

    /// Takes everything that was collected, as one batch.
    fn take_batch(&mut self) -> (r: Vec<Metric>)
        ensures
            final(self)@ == old(self)@.emitted(),
            signal::metric_views(r@) == batched(old(self)@.finished),
    {
        proof {
            use_type_invariant(&*self);
            self.inv_is_valid();
        }
        let mut list: Vec<Finished> = Vec::new();
        assert(finished_views(list@) =~= Seq::empty());
        std::mem::swap(&mut list, &mut self.finished);
        let ghost all = finished_views(list@);
        let mut out: Vec<Metric> = Vec::new();
        assert(signal::metric_views(out@) =~= batched(all.take(0)));
        for f in it: list
            invariant
                it.seq() == list@,
                all == finished_views(list@),
                signal::metric_views(out@) == batched(all.take(it.index() as int)),
        {
            let mut metrics = f.metrics;
            let ghost before = signal::metric_views(out@);
            let ghost more = metrics@;
            out.append(&mut metrics);
            proof {
                let i = it.index() as int;
                assert(signal::metric_views(out@) =~= before + signal::metric_views(more));
                assert(all.take(i + 1).drop_last() =~= all.take(i));
                assert(all.take(i + 1).last() == f@);
            }
        }
        assert(all.take(all.len() as int) =~= all);
        out
    }

    /// Starts what is due, and says what to do next: submit what was collected where there
    /// is nothing left to wait for, else wait.
    pub fn tick(&mut self, now: Instant) -> (r: (Vec<usize>, Next))
        ensures
            old(self)@.valid(),
            final(self)@.valid(),
            r.0@.map_values(|i: usize| i as int) == due_positions(
                old(self)@.scheduleds,
                now@,
                old(self)@.scheduleds.len() as int,
            ),
            ({
                let s = old(self)@.started(now@);
                match r.1 {
                    Next::Emit(batch) => s.ready(now@) && signal::metric_views(batch@) == batched(
                        s.finished,
                    ) && final(self)@ == s.emitted(),
                    Next::Wait { soft, due } => !s.ready(now@) && s.scheduleds.len() > 0
                        && point(soft) == earliest(soft_deadlines(s.finished)) && point(due)
                        == earliest(idle_runs(s.scheduleds)) && final(self)@ == s,
                    Next::Stop => !s.ready(now@) && s.scheduleds.len() == 0 && final(self)@ == s,
                }
            }),
            final(self)@ == old(self)@.after(Event::Tick(now@)),
            old(self)@.submits(Event::Tick(now@)) == match r.1 {
                Next::Emit(batch) => signal::metric_views(batch@),
                _ => Seq::empty(),
            },
    {
        let starts = self.start_due(now);
        proof {
            use_type_invariant(&*self);
            self.inv_is_valid();
        }
        let ghost s = self@;
        let active = self.some_active();
        let soft = self.earliest_soft();
        let waited = match soft {
            Some(d) => now.reached(d),
            None => false,
        };
        assert(s.finished.len() == self.finished@.len());
        assert(s.scheduleds.len() == self.scheduleds@.len());
        if self.finished.len() > 0 && (!active || waited) {
            let batch = self.take_batch();
            proof {
                use_type_invariant(&*self);
                self.inv_is_valid();
            }
            return (starts, Next::Emit(batch));
        }
        let due = self.earliest_run();
        if self.scheduleds.len() == 0 {
            assert(s.finished.len() == 0) by {
                assert(!any_active(s.scheduleds));
            }
            return (starts, Next::Stop);
        }
        (starts, Next::Wait { soft, due })
    }

    /// Takes the end of a collection: the collector is idle again, and what it collected
    /// waits to be submitted.
    pub fn handle_result(&mut self, name: &str, started_at: Instant, metrics: Option<Vec<Metric>>)
        ensures
            old(self)@.valid(),
            final(self)@.valid(),
            final(self)@ == old(self)@.collected(
                name@,
                started_at@,
                match metrics {
                    Some(m) => Some(signal::metric_views(m@)),
                    None => None,
                },
            ),
    {
        proof {
            use_type_invariant(&*self);
            self.inv_is_valid();
        }
        let ghost before = self@;
        self.mark_idle(name);
        proof {
            use_type_invariant(&*self);
            self.inv_is_valid();
        }
        match metrics {
            Some(m) => {
                if m.len() > 0 {
                    let soft_deadline_at = started_at.after(
                        Duration::from_nanos(SOFT_DEADLINE_NANOS),
                    );
                    let f = Finished { metrics: m, soft_deadline_at };
                    let mut list: Vec<Finished> = Vec::new();
                    assert(finished_views(list@) =~= Seq::empty());
                    std::mem::swap(&mut list, &mut self.finished);
                    list.push(f);
                    assert(finished_views(list@) =~= before.finished.push(f@));
                    self.finished = list;
                    proof {
                        self.inv_is_valid();
                    }
                }
            },
            None => {},
        }
    }

    fn mark_idle(&mut self, name: &str)
        ensures
            final(self)@ == (SchedulerView {
                scheduleds: match old(self)@.position(name@) {
                    Some(i) => old(self)@.scheduleds.update(
                        i,
                        ScheduledView { active: false, ..old(self)@.scheduleds[i] },
                    ),
                    None => old(self)@.scheduleds,
                },
                ..old(self)@
            }),
    {
        proof {
            use_type_invariant(&*self);
            self.inv_is_valid();
        }
        let ghost before = self@;
        let mut list: Vec<Scheduled> = Vec::new();
        std::mem::swap(&mut list, &mut self.scheduleds);
        let ghost was = list@;
        let n: usize = list.len();
        let mut i: usize = 0;
        while i < n && !text::same(list[i].name.as_str(), name)
            invariant
                i <= n,
                n == list@.len(),
                list@ == was,
                before.scheduleds == scheduled_views(was),
                first_named(before.scheduleds, name@, i as int) == before.position(name@),
            decreases n - i,
        {
            assert(before.scheduleds[i as int] == was[i as int]@);
            i = i + 1;
        }
        if i < n {
            assert(before.scheduleds[i as int] == was[i as int]@);
            let entry = Scheduled {
                name: list[i].name.clone(),
                interval: list[i].interval,
                next_run: list[i].next_run,
                active: false,
            };
            list[i] = entry;
            assert(scheduled_views(list@) =~= before.scheduleds.update(
                i as int,
                ScheduledView { active: false, ..before.scheduleds[i as int] },
            ));
        }
        self.scheduleds = list;
    }

    /// Takes the signal to end: gives up what is under way, and hands out what was
    /// collected, if anything was.
    pub fn shutdown(&mut self) -> (r: Option<Vec<Metric>>)
        ensures
            old(self)@.valid(),
            final(self)@.valid(),
            final(self)@ == old(self)@.aborted().emitted(),
            match r {
                Some(batch) => old(self)@.finished.len() > 0 && signal::metric_views(batch@)
                    == batched(old(self)@.finished),
                None => old(self)@.finished.len() == 0,
            },
    {
        proof {
            use_type_invariant(&*self);
            self.inv_is_valid();
        }
        let ghost before = self@;
        let mut list: Vec<Scheduled> = Vec::new();
        std::mem::swap(&mut list, &mut self.scheduleds);
        let ghost was = list@;
        let n: usize = list.len();
        let mut i: usize = 0;
        while i < n
            invariant
                i <= n,
                n == list@.len(),
                was.len() == n,
                forall|k: int|
                    0 <= k < i ==> (#[trigger] list@[k])@ == (ScheduledView {
                        active: false,
                        ..was[k]@
                    }),
                forall|k: int| i <= k < n ==> #[trigger] list@[k] == was[k],
            decreases n - i,
        {
            let entry = Scheduled {
                name: list[i].name.clone(),
                interval: list[i].interval,
                next_run: list[i].next_run,
                active: false,
            };
            list[i] = entry;
            i = i + 1;
        }
        assert(before.scheduleds == scheduled_views(was));
        assert(scheduled_views(list@) =~= before.aborted().scheduleds);
        assert forall|k: int| 0 <= k < list@.len() implies (#[trigger] list@[k]).interval@ > 0 by {
            assert(list@[k]@.interval == was[k]@.interval);
        }
        assert forall|k: int, l: int| 0 <= k < l < list@.len() implies (
        #[trigger] list@[k]).name@ != (#[trigger] list@[l]).name@ by {
            assert(list@[k]@.name == before.scheduleds[k].name);
            assert(list@[l]@.name == before.scheduleds[l].name);
        }
        self.scheduleds = list;
        if self.finished.len() == 0 {
            assert(self@.finished =~= Seq::empty());
            proof {
                self.inv_is_valid();
            }
            return None;
        }
        let batch = self.take_batch();
        proof {
            use_type_invariant(&*self);
            self.inv_is_valid();
        }
        Some(batch)
    }
}

/// How often a collector runs, and how long it may take.
pub fn collector_schedule_params(cc: &CollectorConfig) -> (r: (Duration, Duration))
    ensures
        match *cc {
            CollectorConfig::Unix(c) => r == (c.interval, c.max_runtime),
            CollectorConfig::Prometheus(c) => r == (c.interval, c.max_runtime),
        },
{
    match cc {
        CollectorConfig::Unix(c) => (c.interval, c.max_runtime),
        CollectorConfig::Prometheus(c) => (c.interval, c.max_runtime),
    }
}

// Laws

/// The end of a collection is that of the collector that was started: a name stands for one
/// collector.
pub proof fn a_name_stands_for_one_collector(s: SchedulerView, i: int)
    requires
        s.valid(),
        0 <= i < s.scheduleds.len(),
    ensures
        s.position(s.scheduleds[i].name) == Some(i),
{
    found_at(s, i, 0);
}

proof fn found_at(s: SchedulerView, i: int, from: int)
    requires
        s.valid(),
        0 <= from <= i < s.scheduleds.len(),
    ensures
        first_named(s.scheduleds, s.scheduleds[i].name, from) == Some(i),
    decreases i - from,
{
    if from < i {
        found_at(s, i, from + 1);
    }
}

/// Exactly the idle collectors whose time has come are started, each once and in order: a
/// collector never runs twice at a time.
pub proof fn starts_are_due(s: Seq<ScheduledView>, now: nat, n: int)
    requires
        0 <= n <= s.len(),
    ensures
        forall|k: int|
            0 <= k < due_positions(s, now, n).len() ==> 0 <= #[trigger] due_positions(s, now, n)[k] < n
                && s[due_positions(s, now, n)[k]].due(now),
        forall|k: int, l: int|
            0 <= k < l < due_positions(s, now, n).len() ==> #[trigger] due_positions(s, now, n)[k]
                < #[trigger] due_positions(s, now, n)[l],
        forall|i: int|
            0 <= i < n && (#[trigger] s[i]).due(now) ==> due_positions(s, now, n).contains(i),
    decreases n,
{
    if n > 0 {
        starts_are_due(s, now, n - 1);
        let d = due_positions(s, now, n - 1);
        if s[n - 1].due(now) {
            assert forall|i: int| 0 <= i < n && (#[trigger] s[i]).due(now) implies d.push(
                n - 1,
            ).contains(i) by {
                if i == n - 1 {
                    assert(d.push(n - 1)[d.len() as int] == i);
                } else {
                    assert(d.contains(i));
                    let k = choose|k: int| 0 <= k < d.len() && d[k] == i;
                    assert(d.push(n - 1)[k] == i);
                }
            }
        }
    }
}

/// What was collected is in the next batch, whole and behind what was collected before it.
pub proof fn collected_is_emitted(
    s: SchedulerView,
    name: Seq<char>,
    started_at: nat,
    metrics: Seq<MetricView>,
)
    ensures
        batched(s.collected(name, started_at, Some(metrics)).finished) == batched(s.finished)
            + metrics,
        batched(s.collected(name, started_at, None).finished) == batched(s.finished),
{
    let after = s.collected(name, started_at, Some(metrics)).finished;
    if metrics.len() > 0 {
        assert(after.drop_last() =~= s.finished);
    } else {
        assert(batched(s.finished) + metrics =~= batched(s.finished));
    }
}

/// What happens to a scheduler.
pub enum Event {
    /// The loop asks what to do at a point in time.
    Tick(nat),
    /// A collection that was started at a point in time has come to an end, with metrics or
    /// without.
    Ended { name: Seq<char>, started_at: nat, metrics: Option<Seq<MetricView>> },
    /// The agent is shut down.
    Shutdown,
}

impl Event {
    /// What the event brings.
    pub open spec fn brings(self) -> Seq<MetricView> {
        match self {
            Event::Ended { metrics: Some(m), .. } => m,
            _ => Seq::empty(),
        }
    }
}

impl SchedulerView {
    /// The state after an event.
    pub open spec fn after(self, e: Event) -> SchedulerView {
        match e {
            Event::Tick(now) => if self.started(now).ready(now) {
                self.started(now).emitted()
            } else {
                self.started(now)
            },
            Event::Ended { name, started_at, metrics } => self.collected(name, started_at, metrics),
            Event::Shutdown => self.aborted().emitted(),
        }
    }

    /// What is submitted at an event.
    pub open spec fn submits(self, e: Event) -> Seq<MetricView> {
        match e {
            Event::Tick(now) => if self.started(now).ready(now) {
                batched(self.finished)
            } else {
                Seq::empty()
            },
            Event::Ended { .. } => Seq::empty(),
            Event::Shutdown => batched(self.finished),
        }
    }
}

/// The state after some events.
pub open spec fn ran(s: SchedulerView, t: Seq<Event>) -> SchedulerView
    decreases t.len(),
{
    if t.len() == 0 {
        s
    } else {
        ran(s, t.drop_last()).after(t.last())
    }
}

/// What is submitted over some events, one batch after the other.
pub open spec fn submitted(s: SchedulerView, t: Seq<Event>) -> Seq<MetricView>
    decreases t.len(),
{
    if t.len() == 0 {
        Seq::empty()
    } else {
        submitted(s, t.drop_last()) + ran(s, t.drop_last()).submits(t.last())
    }
}

/// What some events bring, one collection after the other.
pub open spec fn brought(t: Seq<Event>) -> Seq<MetricView>
    decreases t.len(),
{
    if t.len() == 0 {
        Seq::empty()
    } else {
        brought(t.drop_last()) + t.last().brings()
    }
}

/// Over a whole run nothing that was collected is lost, submitted twice or put out of order:
/// what was submitted, and behind it what waits to be, is what was collected.
pub proof fn everything_collected_is_submitted_once(s: SchedulerView, t: Seq<Event>)
    ensures
        submitted(s, t) + batched(ran(s, t).finished) == batched(s.finished) + brought(t),
    decreases t.len(),
{
    if t.len() == 0 {
        assert(submitted(s, t) + batched(s.finished) =~= batched(s.finished) + brought(t));
    } else {
        let before = t.drop_last();
        let r = ran(s, before);
        everything_collected_is_submitted_once(s, before);
        match t.last() {
            Event::Ended { name, started_at, metrics } => {
                match metrics {
                    Some(m) => {
                        collected_is_emitted(r, name, started_at, m);
                    },
                    None => {
                        collected_is_emitted(r, name, started_at, Seq::empty());
                    },
                }
            },
            _ => {},
        }
        assert(r.submits(t.last()) + batched(r.after(t.last()).finished) =~= batched(r.finished)
            + t.last().brings());
        assert(submitted(s, t) + batched(ran(s, t).finished) =~= submitted(s, before) + (r.submits(
            t.last(),
        ) + batched(r.after(t.last()).finished)));
        assert(batched(s.finished) + brought(t) =~= (batched(s.finished) + brought(before))
            + t.last().brings());
        assert(submitted(s, before) + (batched(r.finished) + t.last().brings()) =~= (submitted(
            s,
            before,
        ) + batched(r.finished)) + t.last().brings());
    }
}

/// Once the agent is shut down, everything that was collected has been submitted.
pub proof fn shutdown_leaves_nothing_behind(s: SchedulerView, t: Seq<Event>)
    requires
        s.finished.len() == 0,
    ensures
        submitted(s, t.push(Event::Shutdown)) == brought(t),
        ran(s, t.push(Event::Shutdown)).finished.len() == 0,
{
    let whole = t.push(Event::Shutdown);
    everything_collected_is_submitted_once(s, whole);
    assert(whole.drop_last() =~= t);
    assert(batched(ran(s, whole).finished) =~= Seq::empty());
    assert(batched(s.finished) =~= Seq::empty());
    assert(submitted(s, whole) + Seq::<MetricView>::empty() =~= submitted(s, whole));
    assert(batched(s.finished) + brought(whole) =~= brought(t));
}

/// A point is the earliest of some points: it is one of them, and none lies before it.
pub proof fn earliest_is_least(points: Seq<nat>)
    ensures
        match earliest(points) {
            Some(p) => points.contains(p) && forall|i: int|
                0 <= i < points.len() ==> p <= #[trigger] points[i],
            None => points.len() == 0,
        },
    decreases points.len(),
{
    if points.len() > 0 {
        let t = points.drop_last();
        earliest_is_least(t);
        assert(points[points.len() - 1] == points.last());
        assert(forall|i: int| 0 <= i < t.len() ==> #[trigger] points[i] == t[i]);
        match earliest(t) {
            Some(p) => {
                let k = choose|k: int| 0 <= k < t.len() && t[k] == p;
                assert(points[k] == p);
            },
            None => {},
        }
    }
}

/// Nothing that was collected waits for slower collectors beyond its deadline, and nothing
/// waits at all where no collection is under way.
pub proof fn wait_is_bounded(s: SchedulerView, i: int, now: nat)
    requires
        0 <= i < s.finished.len(),
        s.finished[i].soft_deadline_at <= now || !any_active(s.scheduleds),
    ensures
        s.ready(now),
{
    let d = soft_deadlines(s.finished);
    earliest_is_least(d);
    assert(d[i] == s.finished[i].soft_deadline_at);
}

proof fn idle_run_is_listed(s: Seq<ScheduledView>, i: int)
    requires
        0 <= i < s.len(),
        !s[i].active,
    ensures
        idle_runs(s).contains(s[i].next_run),
    decreases s.len(),
{
    let before = idle_runs(s.drop_last());
    if i == s.len() - 1 {
        assert(before.push(s[i].next_run)[before.len() as int] == s[i].next_run);
    } else {
        idle_run_is_listed(s.drop_last(), i);
        let k = choose|k: int| 0 <= k < before.len() && before[k] == s[i].next_run;
        if !s.last().active {
            assert(before.push(s.last().next_run)[k] == s[i].next_run);
        }
    }
}

/// Before the deadlines that the scheduler waits for there is nothing to do: no collector
/// is due, and nothing has to be submitted.
pub proof fn nothing_to_do_before_the_deadlines(s: SchedulerView, now: nat, later: nat)
    requires
        !s.ready(now),
        match earliest(idle_runs(s.scheduleds)) {
            Some(d) => later < d,
            None => true,
        },
        match earliest(soft_deadlines(s.finished)) {
            Some(d) => later < d,
            None => true,
        },
    ensures
        forall|i: int| 0 <= i < s.scheduleds.len() ==> !(#[trigger] s.scheduleds[i]).due(later),
        !s.ready(later),
{
    earliest_is_least(idle_runs(s.scheduleds));
    assert forall|i: int| 0 <= i < s.scheduleds.len() implies !(#[trigger] s.scheduleds[i]).due(
        later,
    ) by {
        if !s.scheduleds[i].active {
            idle_run_is_listed(s.scheduleds, i);
            let r = idle_runs(s.scheduleds);
            let k = choose|k: int| 0 <= k < r.len() && r[k] == s.scheduleds[i].next_run;
            assert(r[k] > later);
        }
    }
}

/// A collector runs once its time has come, unless it is running: it is then running, and its next
/// run is the next point of its cadence. Any other stays as it is.
pub proof fn collectors_run_when_they_are_due(s: ScheduledView, now: nat)
    ensures
        !s.active && now >= s.next_run ==> s.started(now).active && s.started(now).next_run
            == next_due(s.next_run, s.interval, now),
        s.active || now < s.next_run ==> s.started(now) == s,
        s.started(now).name == s.name && s.started(now).interval == s.interval,
        s.next_run > now ==> next_due(s.next_run, s.interval, now) == s.next_run,
{
}

/// What is started is what is due, each once and in order.
pub proof fn what_is_due_is_started(s: Seq<ScheduledView>, now: nat, n: int, i: int)
    requires
        0 <= n <= s.len(),
    ensures
        due_positions(s, now, n).contains(i) <==> 0 <= i < n && !s[i].active && s[i].next_run <= now,
        forall|a: int, b: int|
            0 <= a < b < due_positions(s, now, n).len() ==> #[trigger] due_positions(s, now, n)[a]
                < #[trigger] due_positions(s, now, n)[b] < n,
        forall|a: int|
            0 <= a < due_positions(s, now, n).len() ==> 0 <= #[trigger] due_positions(s, now, n)[a]
                < n,
    decreases n,
{
    if n > 0 {
        what_is_due_is_started(s, now, n - 1, i);
        let before = due_positions(s, now, n - 1);
        if s[n - 1].due(now) {
            let all = before.push(n - 1);
            assert(all[before.len() as int] == n - 1);
            if before.contains(i) {
                let k = choose|k: int| 0 <= k < before.len() && before[k] == i;
                assert(all[k] == i);
            }
            if all.contains(i) && i != n - 1 {
                let k = choose|k: int| 0 <= k < all.len() && all[k] == i;
                assert(before[k] == i);
            }
            assert forall|a: int, b: int| 0 <= a < b < all.len() implies #[trigger] all[a]
                < #[trigger] all[b] < n by {
                if b < before.len() {
                    assert(all[a] == before[a] && all[b] == before[b]);
                } else {
                    assert(all[a] == before[a]);
                }
            }
        }
    }
}

/// The earliest of some points is one of them, and no other lies before it.
pub proof fn earliest_is_the_least(points: Seq<nat>)
    ensures
        points.len() == 0 <==> earliest(points) is None,
        earliest(points) matches Some(p) ==> points.contains(p) && forall|i: int|
            0 <= i < points.len() ==> p <= #[trigger] points[i],
    decreases points.len(),
{
    if points.len() > 0 {
        let t = points.drop_last();
        earliest_is_the_least(t);
        assert(points.last() == points[points.len() - 1]);
        assert(forall|i: int| 0 <= i < t.len() ==> #[trigger] t[i] == points[i]);
        match earliest(t) {
            Some(p) => {
                let k = choose|k: int| 0 <= k < t.len() && t[k] == p;
                assert(points[k] == p);
                assert forall|i: int| 0 <= i < points.len() implies earliest(points)->0
                    <= #[trigger] points[i] by {
                    if i < t.len() {
                        assert(t[i] == points[i]);
                    }
                }
            },
            None => {},
        }
    }
}

/// What was collected is submitted once nothing is running any more, or once some of it has waited
/// for a second since its collection was started; and not before.
pub proof fn finished_metrics_wait_for_the_others(s: SchedulerView, now: nat)
    ensures
        s.finished.len() == 0 ==> !s.ready(now),
        s.finished.len() > 0 && (forall|i: int|
            0 <= i < s.scheduleds.len() ==> !(#[trigger] s.scheduleds[i]).active) ==> s.ready(now),
        (exists|i: int|
            0 <= i < s.finished.len() && (#[trigger] s.finished[i]).soft_deadline_at <= now)
            ==> s.ready(now),
        (exists|i: int| 0 <= i < s.scheduleds.len() && (#[trigger] s.scheduleds[i]).active) && (
        forall|i: int|
            0 <= i < s.finished.len() ==> (#[trigger] s.finished[i]).soft_deadline_at > now)
            ==> !s.ready(now),
{
    let d = soft_deadlines(s.finished);
    earliest_is_the_least(d);
    assert(d.len() == s.finished.len());
    assert(forall|i: int|
        0 <= i < d.len() ==> #[trigger] d[i] == s.finished[i].soft_deadline_at);
    if exists|i: int|
        0 <= i < s.finished.len() && (#[trigger] s.finished[i]).soft_deadline_at <= now {
        let i = choose|i: int|
            0 <= i < s.finished.len() && (#[trigger] s.finished[i]).soft_deadline_at <= now;
        assert(d[i] <= now);
    }
    match earliest(d) {
        Some(p) => {
            let k = choose|k: int| 0 <= k < d.len() && d[k] == p;
            assert(s.finished[k].soft_deadline_at == p);
        },
        None => {},
    }
}

/// A collection that ends leaves its collector idle, and no other. Its metrics are kept as they
/// are, behind the others, until a second after it was started; where it brings none, nothing is
/// kept.
pub proof fn an_ended_collection_is_kept(
    s: SchedulerView,
    i: int,
    started_at: nat,
    metrics: Option<Seq<MetricView>>,
)
    requires
        s.valid(),
        0 <= i < s.scheduleds.len(),
    ensures
        ({
            let t = s.collected(s.scheduleds[i].name, started_at, metrics);
            &&& t.scheduleds.len() == s.scheduleds.len()
            &&& !t.scheduleds[i].active
            &&& t.scheduleds[i].name == s.scheduleds[i].name
            &&& t.scheduleds[i].next_run == s.scheduleds[i].next_run
            &&& t.scheduleds[i].interval == s.scheduleds[i].interval
            &&& forall|k: int|
                0 <= k < s.scheduleds.len() && k != i ==> #[trigger] t.scheduleds[k]
                    == s.scheduleds[k]
            &&& metrics is None ==> t.finished == s.finished
            &&& metrics matches Some(m) ==> m.len() == 0 ==> t.finished == s.finished
            &&& metrics matches Some(m) ==> m.len() > 0 ==> t.finished == s.finished.push(
                (FinishedView { metrics: m, soft_deadline_at: started_at + 1_000_000_000 }),
            )
        }),
{
    found_by_name(s.scheduleds, i, 0);
}

proof fn found_by_name(s: Seq<ScheduledView>, i: int, from: int)
    requires
        0 <= from <= i < s.len(),
        forall|a: int, b: int|
            0 <= a < b < s.len() ==> (#[trigger] s[a]).name != (#[trigger] s[b]).name,
    ensures
        first_named(s, s[i].name, from) == Some(i),
    decreases i - from,
{
    if from < i {
        assert(s[from].name != s[i].name);
        found_by_name(s, i, from + 1);
    }
}

/// The next runs that are waited for are those of the collectors that are idle.
pub proof fn idle_collectors_are_waited_for(s: Seq<ScheduledView>, x: ScheduledView)
    ensures
        idle_runs(Seq::empty()) == Seq::<nat>::empty(),
        x.active ==> idle_runs(s.push(x)) == idle_runs(s),
        !x.active ==> idle_runs(s.push(x)) == idle_runs(s).push(x.next_run),
{
    assert(s.push(x).drop_last() =~= s);
}

/// A batch has the metrics of every finished collection, one collection after the other.
pub proof fn a_batch_has_every_collection(f: Seq<FinishedView>, x: FinishedView)
    ensures
        batched(Seq::empty()) == Seq::<MetricView>::empty(),
        batched(f.push(x)) == batched(f) + x.metrics,
{
    assert(f.push(x).drop_last() =~= f);
}

/// A shutdown leaves every collector idle, with its cadence as it was.
pub proof fn a_shutdown_leaves_collectors_idle(s: SchedulerView, i: int)
    requires
        0 <= i < s.scheduleds.len(),
    ensures
        s.aborted().scheduleds.len() == s.scheduleds.len(),
        !s.aborted().scheduleds[i].active,
        s.aborted().scheduleds[i].name == s.scheduleds[i].name,
        s.aborted().scheduleds[i].next_run == s.scheduleds[i].next_run,
        s.aborted().finished == s.finished,
        s.emitted().finished.len() == 0,
        s.emitted().scheduleds == s.scheduleds,
{
}

} // verus!
