//! The load average.
use vstd::prelude::*;

use crate::collector::reading::{self, Figure, FigureView, Reading};
use crate::labels::Labels;
use crate::ordered::OrderedMap;
use crate::signal::{MetricType, Value};

verus! {

/// The load over one, five and fifteen minutes, each as the bits of a double-precision
/// number.
#[derive(Debug, Clone, Copy, PartialEq, Eq, Structural)]
pub struct LoadAverage {
    pub one: u64,
    pub five: u64,
    pub fifteen: u64,
}

/// A double-precision number as a value.
pub open spec fn number(bits: u64) -> Option<Value> {
    Some(Value::Float { bits, divisor: 1 })
}

/// The figures of the load.
pub open spec fn load_figures(load: LoadAverage) -> Seq<FigureView> {
    seq![
        reading::gauge_figure_view("node_load1"@, number(load.one)),
        reading::gauge_figure_view("node_load5"@, number(load.five)),
        reading::gauge_figure_view("node_load15"@, number(load.fifteen)),
    ]
}

/// The readings of the load. They have no labels of their own.
pub fn collect(load: LoadAverage) -> (r: Vec<Reading>)
    ensures
        reading::reading_views(r@) == reading::figured(
            load_figures(load),
            Map::<Seq<char>, Seq<char>>::empty(),
        ),
{
    let f: Vec<Figure> = vec![
        reading::gauge_figure("node_load1", Some(Value::Float { bits: load.one, divisor: 1 })),
        reading::gauge_figure("node_load5", Some(Value::Float { bits: load.five, divisor: 1 })),
        reading::gauge_figure("node_load15", Some(Value::Float { bits: load.fifteen, divisor: 1 })),
    ];
    assert(reading::figure_views(f@) =~= load_figures(load));
    let l: Labels = OrderedMap::new();
    reading::figures(&f, &l)
}

// Laws

/// The load over one, five and fifteen minutes is reported under the name of each.
pub proof fn every_load_is_reported_under_its_name(load: LoadAverage)
    ensures
        reading::of_name(reading::figured(load_figures(load), Map::<Seq<char>, Seq<char>>::empty()), "node_load1"@) == reading::only(
            "node_load1"@,
            Some(Value::Float { bits: load.one, divisor: 1 }),
            Map::<Seq<char>, Seq<char>>::empty(),
            MetricType::Gauge,
        ),
        reading::of_name(reading::figured(load_figures(load), Map::<Seq<char>, Seq<char>>::empty()), "node_load5"@) == reading::only(
            "node_load5"@,
            Some(Value::Float { bits: load.five, divisor: 1 }),
            Map::<Seq<char>, Seq<char>>::empty(),
            MetricType::Gauge,
        ),
        reading::of_name(reading::figured(load_figures(load), Map::<Seq<char>, Seq<char>>::empty()), "node_load15"@) == reading::only(
            "node_load15"@,
            Some(Value::Float { bits: load.fifteen, divisor: 1 }),
            Map::<Seq<char>, Seq<char>>::empty(),
            MetricType::Gauge,
        ),
{
    let f = load_figures(load);
    let labels = Map::<Seq<char>, Seq<char>>::empty();
    reveal_strlit("node_load1");
    reveal_strlit("node_load5");
    reveal_strlit("node_load15");
    assert("node_load1"@[9] == '1');
    assert("node_load5"@[9] == '5');
    assert(f[0].name == "node_load1"@);
    assert(f[1].name == "node_load5"@);
    assert(f[2].name == "node_load15"@);
    assert(f.len() == 3);
    reading::a_figure_is_read_once(f, labels, 0);
    reading::a_figure_is_read_once(f, labels, 1);
    reading::a_figure_is_read_once(f, labels, 2);
}

} // verus!
