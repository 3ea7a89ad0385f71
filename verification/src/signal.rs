//! Metrics: a named value with labels at a point in time.
use std::sync::Arc;
use vstd::prelude::*;

use crate::labels::{Label, Labels};
use crate::ordered::OrderedMap;
use crate::text;
use crate::time::Timestamp;

verus! {

/// Whether a value goes up and down, or only ever up.
#[derive(Debug, Clone, Copy, PartialEq, Eq, Structural)]
pub enum MetricType {
    Gauge,
    Counter,
}

/// A number, as the exact integers it is made of. What is sent is the number in double
/// precision.
#[derive(Debug, Clone, Copy, PartialEq, Eq, Structural)]
pub enum Value {
    /// A whole number.
    Whole(u64),
    /// A whole number with a sign.
    Signed(i64),
    /// `num` divided by `den`.
    Ratio { num: u64, den: u64 },
    /// `left` times `right`.
    Product { left: u64, right: u64 },
    /// The double-precision number with these bits, divided by `divisor`.
    Float { bits: u64, divisor: u64 },
}

/// One measurement. Names and label sets are shared between the measurements that have
/// the same.
pub struct Metric {
    pub name: Arc<String>,
    pub labels: Arc<Labels>,
    pub value: Value,
    pub timestamp: Timestamp,
    pub metric_type: MetricType,
}

/// What a measurement says.
pub struct MetricView {
    pub name: Seq<char>,
    pub labels: Seq<Label>,
    pub value: Value,
    pub timestamp: int,
    pub metric_type: MetricType,
}

impl View for Metric {
    type V = MetricView;

    open spec fn view(&self) -> MetricView {
        MetricView {
            name: self.name@,
            labels: self.labels.listing(),
            value: self.value,
            timestamp: self.timestamp@,
            metric_type: self.metric_type,
        }
    }
}

/// What a list of measurements says.
pub open spec fn metric_views(m: Seq<Metric>) -> Seq<MetricView> {
    m.map_values(|x: Metric| x@)
}

/// The names of some measurements.
pub open spec fn names_of(m: Seq<Metric>) -> Set<Seq<char>> {
    Set::new(|n: Seq<char>| exists|i: int| 0 <= i < m.len() && (#[trigger] m[i]).name@ == n)
}

/// The label sets of some measurements.
pub open spec fn label_sets_of(m: Seq<Metric>) -> Set<Seq<Label>> {
    Set::new(
        |l: Seq<Label>| exists|i: int| 0 <= i < m.len() && (#[trigger] m[i]).labels.listing() == l,
    )
}

/// One more measurement adds its name and its label set.
pub proof fn one_more_measurement(m: Seq<Metric>, x: Metric)
    ensures
        names_of(m.push(x)) == names_of(m).insert(x.name@),
        label_sets_of(m.push(x)) == label_sets_of(m).insert(x.labels.listing()),
{
    let more = m.push(x);
    assert(more[m.len() as int] == x);
    assert forall|n: Seq<char>| #[trigger] names_of(m).insert(x.name@).contains(n) implies names_of(
        more,
    ).contains(n) by {
        if n != x.name@ {
            let i = choose|i: int| 0 <= i < m.len() && (#[trigger] m[i]).name@ == n;
            assert(more[i].name@ == n);
        }
    }
    assert forall|l: Seq<Label>| #[trigger]
        label_sets_of(m).insert(x.labels.listing()).contains(l) implies label_sets_of(
        more,
    ).contains(l) by {
        if l != x.labels.listing() {
            let i = choose|i: int| 0 <= i < m.len() && (#[trigger] m[i]).labels.listing() == l;
            assert(more[i].labels.listing() == l);
        }
    }
    assert(names_of(more) =~= names_of(m).insert(x.name@));
    assert(label_sets_of(more) =~= label_sets_of(m).insert(x.labels.listing()));
}

impl Clone for Metric {
    fn clone(&self) -> (m: Metric)
        ensures
            m@ == self@,
    {
        Metric {
            name: self.name.clone(),
            labels: self.labels.clone(),
            value: self.value,
            timestamp: self.timestamp,
            metric_type: self.metric_type,
        }
    }
}

/// The names that have been used, each kept once.
pub struct NamePool {
    names: OrderedMap<String, Arc<String>>,
}

impl NamePool {
    #[verifier::type_invariant]
    spec fn names_stand_for_themselves(self) -> bool {
        forall|k: Seq<char>| #[trigger] self.names@.dom().contains(k) ==> self.names@[k] == k
    }

    /// The names in the pool.
    pub closed spec fn names(&self) -> Set<Seq<char>> {
        self.names@.dom()
    }

    /// The pool without names.
    pub fn new() -> (p: NamePool)
        ensures
            p.names() == Set::<Seq<char>>::empty(),
    {
        let p = NamePool { names: OrderedMap::new() };
        assert(p.names() =~= Set::empty());
        p
    }
}

/// A shared copy of a name, from the pool where it has one. The pool has it afterwards.
pub fn intern_name(pool: &mut NamePool, name: &str) -> (r: Arc<String>)
    ensures
        r@ == name@,
        final(pool).names() == old(pool).names().insert(name@),
{
    proof {
        use_type_invariant(&*pool);
    }
    let key = text::owned(name);
    match pool.names.get(&key) {
        Some(known) => {
            let r = known.clone();
            assert(old(pool).names().insert(name@) =~= old(pool).names());
            return r;
        },
        None => {},
    }
    let shared = Arc::new(text::owned(name));
    let mut names: OrderedMap<String, Arc<String>> = OrderedMap::new();
    std::mem::swap(&mut names, &mut pool.names);
    names.insert(key, shared.clone());
    pool.names = names;
    assert(pool.names() =~= old(pool).names().insert(name@));
    shared
}

impl Metric {
    /// A value that goes up and down.
    pub fn gauge(
        pool: &mut NamePool,
        name: &str,
        value: Value,
        labels: Arc<Labels>,
        now: Timestamp,
    ) -> (m: Metric)
        ensures
            m@ == (MetricView {
                name: name@,
                labels: labels.listing(),
                value,
                timestamp: now@,
                metric_type: MetricType::Gauge,
            }),
            final(pool).names() == old(pool).names().insert(name@),
    {
        Metric {
            name: intern_name(pool, name),
            labels,
            value,
            timestamp: now,
            metric_type: MetricType::Gauge,
        }
    }

    /// A value that only ever goes up.
    pub fn counter(
        pool: &mut NamePool,
        name: &str,
        value: Value,
        labels: Arc<Labels>,
        now: Timestamp,
    ) -> (m: Metric)
        ensures
            m@ == (MetricView {
                name: name@,
                labels: labels.listing(),
                value,
                timestamp: now@,
                metric_type: MetricType::Counter,
            }),
            final(pool).names() == old(pool).names().insert(name@),
    {
        Metric {
            name: intern_name(pool, name),
            labels,
            value,
            timestamp: now,
            metric_type: MetricType::Counter,
        }
    }
}

} // verus!
