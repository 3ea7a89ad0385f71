//! Label sets: names with values, one value for each name, in the order of the names.
use vstd::prelude::*;

use crate::ordered::{self, Key, OrderedMap};
use crate::text::{self, Order};

verus! {

/// A set of labels.
pub type Labels = OrderedMap<String, String>;

/// What a set of labels says: the value of each label.
pub type LabelMap = Map<Seq<char>, Seq<char>>;

/// A label: its name and its value.
pub type Label = (Seq<char>, Seq<char>);

/// The order of two labels: by name, then by value.
pub open spec fn label_order(a: Label, b: Label) -> Order {
    match text::text_order(a.0, b.0) {
        Order::Equal => text::text_order(a.1, b.1),
        o => o,
    }
}

/// The order of two label sets: lexicographic over their labels.
pub open spec fn labels_order(a: Seq<Label>, b: Seq<Label>) -> Order
    decreases a.len(),
{
    if a.len() == 0 {
        if b.len() == 0 {
            Order::Equal
        } else {
            Order::Less
        }
    } else if b.len() == 0 {
        Order::Greater
    } else {
        match label_order(a[0], b[0]) {
            Order::Equal => labels_order(a.drop_first(), b.drop_first()),
            o => o,
        }
    }
}

proof fn label_order_laws(a: Label, b: Label)
    ensures
        label_order(a, b) == Order::Equal <==> a == b,
        label_order(a, b) == Order::Less <==> label_order(b, a) == Order::Greater,
        label_order(a, b) == Order::Equal <==> label_order(b, a) == Order::Equal,
{
    text::text_order_equal(a.0, b.0);
    text::text_order_equal(a.1, b.1);
    text::text_order_mirrored(a.0, b.0);
    text::text_order_mirrored(a.1, b.1);
    text::text_order_mirrored(b.0, a.0);
}

proof fn label_order_transitive(a: Label, b: Label, c: Label)
    requires
        label_order(a, b) == Order::Less,
        label_order(b, c) == Order::Less,
    ensures
        label_order(a, c) == Order::Less,
{
    text::text_order_equal(a.0, b.0);
    text::text_order_equal(b.0, c.0);
    if text::text_less(a.0, b.0) && text::text_less(b.0, c.0) {
        text::text_order_transitive(a.0, b.0, c.0);
    } else if a.0 == b.0 && b.0 == c.0 {
        text::text_order_transitive(a.1, b.1, c.1);
    }
}

proof fn labels_order_equal(a: Seq<Label>, b: Seq<Label>)
    ensures
        labels_order(a, b) == Order::Equal <==> a == b,
    decreases a.len(),
{
    if a.len() > 0 && b.len() > 0 {
        label_order_laws(a[0], b[0]);
        labels_order_equal(a.drop_first(), b.drop_first());
        assert(a =~= seq![a[0]] + a.drop_first());
        assert(b =~= seq![b[0]] + b.drop_first());
    } else if a.len() == 0 && b.len() == 0 {
        assert(a =~= b);
    }
}

proof fn labels_order_mirrored(a: Seq<Label>, b: Seq<Label>)
    ensures
        labels_order(a, b) == Order::Less <==> labels_order(b, a) == Order::Greater,
    decreases a.len(),
{
    if a.len() > 0 && b.len() > 0 {
        label_order_laws(a[0], b[0]);
        label_order_laws(b[0], a[0]);
        labels_order_mirrored(a.drop_first(), b.drop_first());
    }
}

proof fn labels_order_transitive(a: Seq<Label>, b: Seq<Label>, c: Seq<Label>)
    requires
        labels_order(a, b) == Order::Less,
        labels_order(b, c) == Order::Less,
    ensures
        labels_order(a, c) == Order::Less,
    decreases a.len(),
{
    if a.len() > 0 && b.len() > 0 && c.len() > 0 {
        label_order_laws(a[0], b[0]);
        label_order_laws(b[0], c[0]);
        if label_order(a[0], b[0]) == Order::Less && label_order(b[0], c[0]) == Order::Less {
            label_order_transitive(a[0], b[0], c[0]);
        } else if a[0] == b[0] && b[0] == c[0] {
            label_order_laws(a[0], c[0]);
            labels_order_transitive(a.drop_first(), b.drop_first(), c.drop_first());
        }
    }
}

impl Key for Labels {
    type Meaning = Seq<Label>;

    open spec fn meaning(&self) -> Seq<Label> {
        self.listing()
    }

    open spec fn order(a: Seq<Label>, b: Seq<Label>) -> Order {
        labels_order(a, b)
    }

    proof fn order_equal(a: Seq<Label>, b: Seq<Label>) {
        labels_order_equal(a, b);
    }

    proof fn order_mirrored(a: Seq<Label>, b: Seq<Label>) {
        labels_order_mirrored(a, b);
    }

    proof fn order_transitive(a: Seq<Label>, b: Seq<Label>, c: Seq<Label>) {
        labels_order_transitive(a, b, c);
    }

    fn order_to(&self, other: &Self) -> (o: Order) {
        let ghost a = self.listing();
        let ghost b = other.listing();
        let mut i: usize = 0;
        let n: usize = self.len();
        let m: usize = other.len();
        assert(a.skip(0) =~= a);
        assert(b.skip(0) =~= b);
        while i < n && i < m
            invariant
                a == self.listing(),
                b == other.listing(),
                n == a.len(),
                m == b.len(),
                i <= n,
                i <= m,
                labels_order(a.skip(i as int), b.skip(i as int)) == labels_order(a, b),
            decreases n - i,
        {
            assert(a.skip(i as int)[0] == a[i as int]);
            assert(b.skip(i as int)[0] == b[i as int]);
            let by_name = text::compare(self.key_at(i).as_str(), other.key_at(i).as_str());
            match by_name {
                Order::Equal => {},
                o => {
                    return o;
                },
            }
            let by_value = text::compare(self.value_at(i).as_str(), other.value_at(i).as_str());
            match by_value {
                Order::Equal => {},
                o => {
                    return o;
                },
            }
            assert(a.skip(i as int).drop_first() =~= a.skip(i + 1));
            assert(b.skip(i as int).drop_first() =~= b.skip(i + 1));
            i = i + 1;
        }
        if i < n {
            Order::Greater
        } else if i < m {
            Order::Less
        } else {
            Order::Equal
        }
    }
}

/// Two label sets with the same labels list them alike.
pub proof fn labels_listed_once(a: Seq<Label>, b: Seq<Label>)
    requires
        ordered::ascending::<String>(ordered::firsts(a)),
        ordered::ascending::<String>(ordered::firsts(b)),
        ordered::as_map(a) == ordered::as_map(b),
    ensures
        a == b,
{
    ordered::one_listing::<String, Seq<char>>(a, b);
}

/// Gives a label its value.
pub fn set_label(labels: &mut Labels, name: &str, value: &str)
    ensures
        final(labels)@ == old(labels)@.insert(name@, value@),
{
    labels.insert(text::owned(name), text::owned(value));
}

/// The label set with one label.
pub fn one_label(name: &str, value: &str) -> (l: Labels)
    ensures
        l@ == Map::<Seq<char>, Seq<char>>::empty().insert(name@, value@),
{
    let mut l: Labels = OrderedMap::new();
    set_label(&mut l, name, value);
    l
}

/// What a label set says with another one on top of it: where both have a label, the
/// one on top wins.
pub open spec fn overlaid(
    under: Map<Seq<char>, Seq<char>>,
    over: Map<Seq<char>, Seq<char>>,
) -> Map<Seq<char>, Seq<char>> {
    under.union_prefer_right(over)
}

/// Lays one label set on top of another.
pub fn overlay(labels: &mut Labels, over: &Labels)
    ensures
        final(labels)@ == overlaid(old(labels)@, over@),
{
    let n: usize = over.len();
    let ghost before = labels@;
    let ghost top = over.listing();
    let mut i: usize = 0;
    proof {
        ordered::ascending_distinct::<String, Seq<char>>(top);
        assert(overlaid(before, ordered::as_map(top.take(0))) =~= before);
    }
    while i < n
        invariant
            n == top.len(),
            i <= n,
            top == over.listing(),
            forall|x: int, y: int|
                0 <= x < top.len() && 0 <= y < top.len() && (#[trigger] top[x]).0 == (
                #[trigger] top[y]).0 ==> x == y,
            labels@ == overlaid(before, ordered::as_map(top.take(i as int))),
        decreases n - i,
    {
        labels.insert(over.key_at(i).clone(), over.value_at(i).clone());
        proof {
            let p = top.take(i as int);
            let q = top.take(i + 1);
            taken_map(top, i as int);
            assert(overlaid(before, ordered::as_map(q)) =~= overlaid(
                before,
                ordered::as_map(p),
            ).insert(top[i as int].0, top[i as int].1));
        }
        i = i + 1;
    }
    assert(top.take(n as int) =~= top);
}

pub proof fn taken_map(top: Seq<Label>, i: int)
    requires
        0 <= i < top.len(),
        forall|x: int, y: int|
            0 <= x < top.len() && 0 <= y < top.len() && (#[trigger] top[x]).0 == (#[trigger] top[y]).0
                ==> x == y,
    ensures
        ordered::as_map(top.take(i + 1)) == ordered::as_map(top.take(i)).insert(top[i].0, top[i].1),
{
    let p = top.take(i);
    let q = top.take(i + 1);
    assert forall|k: Seq<char>| ordered::has_key(q, k) <==> ordered::has_key(p, k) || k
        == top[i].0 by {
        if ordered::has_key(q, k) && k != top[i].0 {
            let x = ordered::key_index(q, k);
            assert(p[x] == q[x]);
        }
        if ordered::has_key(p, k) {
            let x = ordered::key_index(p, k);
            assert(q[x] == p[x]);
        }
        assert(q[i] == top[i]);
    }
    assert forall|k: Seq<char>| ordered::has_key(q, k) && k != top[i].0 implies q[ordered::key_index(
        q,
        k,
    )].1 == p[ordered::key_index(p, k)].1 by {
        let x = ordered::key_index(q, k);
        let y = ordered::key_index(p, k);
        assert(p[x] == q[x]);
        assert(top[x] == q[x] && top[y] == p[y]);
    }
    assert(q[i] == top[i]);
    assert(ordered::key_index(q, top[i].0) == i) by {
        let x = ordered::key_index(q, top[i].0);
        assert(ordered::has_key(q, top[i].0));
        assert(top[x] == q[x]);
    }
    assert(ordered::as_map(q) =~= ordered::as_map(p).insert(top[i].0, top[i].1));
}

/// A copy of a label set.
pub fn copied(labels: &Labels) -> (r: Labels)
    ensures
        r@ == labels@,
        r.listing() == labels.listing(),
{
    let mut r: Labels = OrderedMap::new();
    overlay(&mut r, labels);
    let n: usize = r.len();
    let m: usize = labels.len();
    proof {
        assert(overlaid(Map::empty(), labels@) =~= labels@);
        labels_listed_once(r.listing(), labels.listing());
    }
    r
}

/// Label sets are ordered by the first labels in which they differ: by their names, and by their
/// values where the names are the same. A set comes before every longer one that begins with it.
pub proof fn the_first_different_label_decides(
    common: Seq<Label>,
    x: Label,
    y: Label,
    a: Seq<Label>,
    b: Seq<Label>,
)
    ensures
        x.0 != y.0 ==> labels_order(common.push(x) + a, common.push(y) + b) == text::text_order(
            x.0,
            y.0,
        ),
        x.0 == y.0 && x.1 != y.1 ==> labels_order(common.push(x) + a, common.push(y) + b)
            == text::text_order(x.1, y.1),
        labels_order(common, common.push(x) + a) == Order::Less,
        labels_order(common.push(x) + a, common) == Order::Greater,
        labels_order(common, common) == Order::Equal,
    decreases common.len(),
{
    let p = common.push(x) + a;
    let q = common.push(y) + b;
    text::text_order_equal(x.0, y.0);
    text::text_order_equal(x.1, y.1);
    if common.len() > 0 {
        let t = common.drop_first();
        assert(p[0] == common[0] && q[0] == common[0]);
        assert(p.drop_first() =~= t.push(x) + a);
        assert(q.drop_first() =~= t.push(y) + b);
        text::text_order_equal(common[0].0, common[0].0);
        text::text_order_equal(common[0].1, common[0].1);
        the_first_different_label_decides(t, x, y, a, b);
    } else {
        assert(p[0] == x && q[0] == y);
    }
}

} // verus!
