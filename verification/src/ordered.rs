//! A map that keeps its entries in the order of their keys.
use vstd::prelude::*;

use crate::text::{self, Order};

verus! {

/// A key of an `OrderedMap`: something with a mathematical value and a total order on
/// those values.
pub trait Key: Sized {
    /// What the key stands for.
    type Meaning;

    /// The value of the key.
    spec fn meaning(&self) -> Self::Meaning;

    /// The order of two values.
    spec fn order(a: Self::Meaning, b: Self::Meaning) -> Order;

    /// Only equal values are in the order `Equal`.
    proof fn order_equal(a: Self::Meaning, b: Self::Meaning)
        ensures
            Self::order(a, b) == Order::Equal <==> a == b,
    ;

    /// Swapping the values mirrors the order.
    proof fn order_mirrored(a: Self::Meaning, b: Self::Meaning)
        ensures
            Self::order(a, b) == Order::Less <==> Self::order(b, a) == Order::Greater,
    ;

    /// The order is transitive.
    proof fn order_transitive(a: Self::Meaning, b: Self::Meaning, c: Self::Meaning)
        requires
            Self::order(a, b) == Order::Less,
            Self::order(b, c) == Order::Less,
        ensures
            Self::order(a, c) == Order::Less,
    ;

    /// Compares two keys.
    fn order_to(&self, other: &Self) -> (o: Order)
        ensures
            o == Self::order(self.meaning(), other.meaning()),
    ;
}

impl Key for String {
    type Meaning = Seq<char>;

    open spec fn meaning(&self) -> Seq<char> {
        self@
    }

    open spec fn order(a: Seq<char>, b: Seq<char>) -> Order {
        text::text_order(a, b)
    }

    proof fn order_equal(a: Seq<char>, b: Seq<char>) {
        text::text_order_equal(a, b);
    }

    proof fn order_mirrored(a: Seq<char>, b: Seq<char>) {
        text::text_order_mirrored(a, b);
    }

    proof fn order_transitive(a: Seq<char>, b: Seq<char>, c: Seq<char>) {
        text::text_order_transitive(a, b, c);
    }

    fn order_to(&self, other: &Self) -> (o: Order) {
        text::compare(self.as_str(), other.as_str())
    }
}

/// The values stand strictly in order.
pub open spec fn ascending<K: Key>(s: Seq<K::Meaning>) -> bool {
    forall|i: int, j: int|
        0 <= i < j < s.len() ==> K::order(#[trigger] s[i], #[trigger] s[j]) == Order::Less
}

/// Some pair has the key.
pub open spec fn has_key<A, B>(p: Seq<(A, B)>, k: A) -> bool {
    exists|i: int| 0 <= i < p.len() && (#[trigger] p[i]).0 == k
}

/// Where the key stands.
pub open spec fn key_index<A, B>(p: Seq<(A, B)>, k: A) -> int {
    choose|i: int| 0 <= i < p.len() && (#[trigger] p[i]).0 == k
}

/// The map that a list of pairs with distinct keys spells out.
pub open spec fn as_map<A, B>(p: Seq<(A, B)>) -> Map<A, B> {
    Map::new(|k: A| has_key(p, k), |k: A| p[key_index(p, k)].1)
}

/// The first halves of a list of pairs.
pub open spec fn firsts<A, B>(p: Seq<(A, B)>) -> Seq<A> {
    p.map_values(|e: (A, B)| e.0)
}

/// Strictly ascending keys are distinct.
pub proof fn ascending_distinct<K: Key, B>(p: Seq<(K::Meaning, B)>)
    requires
        ascending::<K>(firsts(p)),
    ensures
        forall|i: int, j: int|
            0 <= i < p.len() && 0 <= j < p.len() && (#[trigger] p[i]).0 == (#[trigger] p[j]).0
                ==> i == j,
{
    assert forall|i: int, j: int|
        0 <= i < p.len() && 0 <= j < p.len() && (#[trigger] p[i]).0 == (#[trigger] p[j]).0 implies i
        == j by {
        K::order_equal(p[i].0, p[j].0);
        assert(firsts(p)[i] == p[i].0 && firsts(p)[j] == p[j].0);
        if i < j {
            assert(K::order(firsts(p)[i], firsts(p)[j]) == Order::Less);
        } else if j < i {
            K::order_equal(p[j].0, p[i].0);
            assert(K::order(firsts(p)[j], firsts(p)[i]) == Order::Less);
        }
    }
}

/// Two lists of pairs in ascending order of their keys that spell out the same map are
/// the same list: a map has one listing.
pub proof fn one_listing<K: Key, B>(p: Seq<(K::Meaning, B)>, q: Seq<(K::Meaning, B)>)
    requires
        ascending::<K>(firsts(p)),
        ascending::<K>(firsts(q)),
        as_map(p) == as_map(q),
    ensures
        p == q,
    decreases p.len(),
{
    ascending_distinct::<K, B>(p);
    ascending_distinct::<K, B>(q);
    if p.len() == 0 {
        if q.len() > 0 {
            assert(has_key(q, q[0].0));
            assert(as_map(q).dom().contains(q[0].0));
            assert(as_map(p).dom().contains(q[0].0));
        }
        assert(p =~= q);
    } else {
        assert(has_key(p, p[0].0));
        assert(as_map(p).dom().contains(p[0].0));
        assert(as_map(q).dom().contains(p[0].0));
        let i = key_index(q, p[0].0);
        assert(has_key(q, q[0].0));
        assert(as_map(q).dom().contains(q[0].0));
        assert(as_map(p).dom().contains(q[0].0));
        let j = key_index(p, q[0].0);
        assert(firsts(q)[i] == p[0].0 && firsts(q)[0] == q[0].0);
        assert(firsts(p)[j] == q[0].0 && firsts(p)[0] == p[0].0);
        if i > 0 && j > 0 {
            K::order_mirrored(q[0].0, p[0].0);
            assert(false);
        }
        assert(p[0].0 == q[0].0);
        assert(key_index(p, p[0].0) == 0);
        assert(key_index(q, q[0].0) == 0);
        assert(as_map(p)[p[0].0] == p[0].1);
        assert(as_map(q)[q[0].0] == q[0].1);
        let p1 = p.drop_first();
        let q1 = q.drop_first();
        tail_ascending::<K, B>(p);
        tail_ascending::<K, B>(q);
        tail_map::<K, B>(p);
        tail_map::<K, B>(q);
        one_listing::<K, B>(p1, q1);
        assert(p =~= seq![p[0]] + p1);
        assert(q =~= seq![q[0]] + q1);
    }
}

proof fn tail_ascending<K: Key, B>(p: Seq<(K::Meaning, B)>)
    requires
        p.len() > 0,
        ascending::<K>(firsts(p)),
    ensures
        ascending::<K>(firsts(p.drop_first())),
{
    let t = p.drop_first();
    assert forall|i: int, j: int| 0 <= i < j < firsts(t).len() implies K::order(
        #[trigger] firsts(t)[i],
        #[trigger] firsts(t)[j],
    ) == Order::Less by {
        assert(firsts(t)[i] == firsts(p)[i + 1]);
        assert(firsts(t)[j] == firsts(p)[j + 1]);
    }
}

proof fn tail_map<K: Key, B>(p: Seq<(K::Meaning, B)>)
    requires
        p.len() > 0,
        ascending::<K>(firsts(p)),
    ensures
        as_map(p.drop_first()) == as_map(p).remove(p[0].0),
{
    let t = p.drop_first();
    ascending_distinct::<K, B>(p);
    assert forall|k: K::Meaning| has_key(t, k) <==> has_key(p, k) && k != p[0].0 by {
        if has_key(t, k) {
            let i = key_index(t, k);
            assert(p[i + 1] == t[i]);
        }
        if has_key(p, k) && k != p[0].0 {
            let i = key_index(p, k);
            assert(t[i - 1] == p[i]);
        }
    }
    assert forall|k: K::Meaning| has_key(t, k) implies t[key_index(t, k)].1 == p[key_index(
        p,
        k,
    )].1 by {
        let i = key_index(t, k);
        assert(p[i + 1] == t[i]);
    }
    assert(as_map(t) =~= as_map(p).remove(p[0].0));
}

/// Overwriting the pair of a key, or inserting it where the key is not there, is
/// insertion into the map.
proof fn written_map<K: Key, B>(
    p: Seq<(K::Meaning, B)>,
    q: Seq<(K::Meaning, B)>,
    at: int,
    k: K::Meaning,
    v: B,
)
    requires
        ascending::<K>(firsts(p)),
        ascending::<K>(firsts(q)),
        0 <= at <= p.len(),
        at < p.len() && p[at].0 == k && q == p.update(at, (k, v)) || !has_key(p, k) && q
            == p.insert(at, (k, v)),
    ensures
        as_map(q) == as_map(p).insert(k, v),
{
    ascending_distinct::<K, B>(p);
    ascending_distinct::<K, B>(q);
    let grown = q.len() > p.len();
    assert(q[at] == (k, v));
    assert forall|x: K::Meaning| has_key(q, x) <==> has_key(p, x) || x == k by {
        if has_key(q, x) && x != k {
            let i = key_index(q, x);
            if grown && i > at {
                assert(p[i - 1] == q[i]);
            } else {
                assert(p[i] == q[i]);
            }
        }
        if has_key(p, x) {
            let i = key_index(p, x);
            if grown && i >= at {
                assert(q[i + 1] == p[i]);
            } else if i != at {
                assert(q[i] == p[i]);
            }
        }
    }
    assert forall|x: K::Meaning| has_key(q, x) && x != k implies q[key_index(q, x)].1
        == p[key_index(p, x)].1 by {
        let i = key_index(q, x);
        if grown && i > at {
            assert(p[i - 1] == q[i]);
        } else {
            assert(p[i] == q[i]);
        }
    }
    assert(key_index(q, k) == at);
    assert(as_map(q) =~= as_map(p).insert(k, v));
}

/// A map whose entries stand in the order of their keys. One entry for each key.
pub struct OrderedMap<K: Key, V: View> {
    entries: Vec<(K, V)>,
}

impl<K: Key, V: View> View for OrderedMap<K, V> {
    type V = Map<K::Meaning, V::V>;

    open spec fn view(&self) -> Map<K::Meaning, V::V> {
        as_map(self.listing())
    }
}

spec fn listed<K: Key, V: View>(entries: Seq<(K, V)>) -> Seq<(K::Meaning, V::V)> {
    entries.map_values(|e: (K, V)| (e.0.meaning(), e.1@))
}

impl<K: Key, V: View> OrderedMap<K, V> {
    /// The entries, in the order of their keys.
    pub closed spec fn listing(&self) -> Seq<(K::Meaning, V::V)> {
        listed(self.entries@)
    }

    #[verifier::type_invariant]
    spec fn in_order(self) -> bool {
        ascending::<K>(firsts(listed(self.entries@)))
    }

    /// The map without entries.
    pub fn new() -> (m: Self)
        ensures
            m.listing() == Seq::<(K::Meaning, V::V)>::empty(),
            m@ == Map::<K::Meaning, V::V>::empty(),
    {
        let m = OrderedMap { entries: Vec::new() };
        proof {
            assert(m.listing() =~= Seq::empty());
            assert(m@ =~= Map::empty());
        }
        m
    }

    /// The map with some entries, which stand strictly in the order of their keys.
    pub fn from_entries(entries: Vec<(K, V)>) -> (m: Self)
        requires
            ascending::<K>(firsts(entries@.map_values(|e: (K, V)| (e.0.meaning(), e.1@)))),
        ensures
            m.listing() == entries@.map_values(|e: (K, V)| (e.0.meaning(), e.1@)),
    {
        OrderedMap { entries }
    }

    /// How many entries there are. Their keys stand strictly in order.
    pub fn len(&self) -> (n: usize)
        ensures
            n == self.listing().len(),
            ascending::<K>(firsts(self.listing())),
    {
        proof {
            use_type_invariant(self);
        }
        self.entries.len()
    }

    /// The key of the entry at a position.
    pub fn key_at(&self, i: usize) -> (k: &K)
        requires
            i < self.listing().len(),
        ensures
            k.meaning() == self.listing()[i as int].0,
    {
        &self.entries[i].0
    }

    /// The value of the entry at a position.
    pub fn value_at(&self, i: usize) -> (v: &V)
        requires
            i < self.listing().len(),
        ensures
            v@ == self.listing()[i as int].1,
    {
        &self.entries[i].1
    }
}

/// Where a key stands, or where it belongs.
enum Place {
    Found(usize),
    Missing(usize),
}

impl<K: Key, V: View> OrderedMap<K, V> {
    /// Finds the place of a key by halving the range in which it can stand.
    fn place(&self, k: &K) -> (r: Place)
        ensures
            match r {
                Place::Found(i) => i < self.listing().len() && self.listing()[i as int].0
                    == k.meaning(),
                Place::Missing(i) => {
                    &&& i <= self.listing().len()
                    &&& forall|x: int|
                        0 <= x < i ==> K::order(
                            (#[trigger] self.listing()[x]).0,
                            k.meaning(),
                        ) == Order::Less
                    &&& forall|x: int|
                        i <= x < self.listing().len() ==> K::order(
                            k.meaning(),
                            (#[trigger] self.listing()[x]).0,
                        ) == Order::Less
                },
            },
    {
        proof {
            use_type_invariant(self);
        }
        let ghost l = self.listing();
        let mut lo: usize = 0;
        let mut hi: usize = self.entries.len();
        while lo < hi
            invariant
                lo <= hi <= self.entries@.len(),
                l == self.listing(),
                l.len() == self.entries@.len(),
                ascending::<K>(firsts(l)),
                forall|x: int|
                    0 <= x < lo ==> K::order((#[trigger] l[x]).0, k.meaning()) == Order::Less,
                forall|x: int|
                    hi <= x < l.len() ==> K::order(k.meaning(), (#[trigger] l[x]).0)
                        == Order::Less,
            decreases hi - lo,
        {
            let mid: usize = lo + (hi - lo) / 2;
            let o = self.entries[mid].0.order_to(k);
            assert(l[mid as int].0 == self.entries@[mid as int].0.meaning());
            proof {
                K::order_equal(l[mid as int].0, k.meaning());
                K::order_mirrored(k.meaning(), l[mid as int].0);
            }
            match o {
                Order::Equal => {
                    return Place::Found(mid);
                },
                Order::Less => {
                    assert forall|x: int| 0 <= x < mid + 1 implies K::order(
                        (#[trigger] l[x]).0,
                        k.meaning(),
                    ) == Order::Less by {
                        if x < mid {
                            assert(firsts(l)[x] == l[x].0 && firsts(l)[mid as int] == l[mid as int].0);
                            K::order_transitive(l[x].0, l[mid as int].0, k.meaning());
                        }
                    }
                    lo = mid + 1;
                },
                Order::Greater => {
                    assert forall|x: int| mid <= x < l.len() implies K::order(
                        k.meaning(),
                        (#[trigger] l[x]).0,
                    ) == Order::Less by {
                        if x > mid {
                            assert(firsts(l)[x] == l[x].0 && firsts(l)[mid as int] == l[mid as int].0);
                            K::order_transitive(k.meaning(), l[mid as int].0, l[x].0);
                        }
                    }
                    hi = mid;
                },
            }
        }
        Place::Missing(lo)
    }

    proof fn missing_is_absent(l: Seq<(K::Meaning, V::V)>, at: int, k: K::Meaning)
        requires
            0 <= at <= l.len(),
            forall|x: int| 0 <= x < at ==> K::order((#[trigger] l[x]).0, k) == Order::Less,
            forall|x: int| at <= x < l.len() ==> K::order(k, (#[trigger] l[x]).0) == Order::Less,
        ensures
            !has_key(l, k),
    {
        if has_key(l, k) {
            let i = key_index(l, k);
            K::order_equal(l[i].0, k);
            K::order_equal(k, l[i].0);
        }
    }

    /// The value of a key.
    pub fn get(&self, k: &K) -> (r: Option<&V>)
        ensures
            match r {
                Some(v) => self@.dom().contains(k.meaning()) && self@[k.meaning()] == v@,
                None => !self@.dom().contains(k.meaning()),
            },
    {
        proof {
            use_type_invariant(self);
            ascending_distinct::<K, V::V>(self.listing());
        }
        match self.place(k) {
            Place::Found(i) => {
                assert(has_key(self.listing(), k.meaning()));
                assert(key_index(self.listing(), k.meaning()) == i);
                Some(&self.entries[i].1)
            },
            Place::Missing(i) => {
                proof {
                    Self::missing_is_absent(self.listing(), i as int, k.meaning());
                }
                None
            },
        }
    }

    /// Gives a key a value, in place of the one it had.
    pub fn insert(&mut self, k: K, v: V)
        ensures
            final(self)@ == old(self)@.insert(k.meaning(), v@),
    {
        proof {
            use_type_invariant(&*self);
        }
        let p = self.place(&k);
        let ghost before = self.listing();
        let mut entries: Vec<(K, V)> = Vec::new();
        std::mem::swap(&mut entries, &mut self.entries);
        match p {
            Place::Found(i) => {
                entries[i] = (k, v);
                let ghost after = listed(entries@);
                assert(after =~= before.update(i as int, (k.meaning(), v@)));
                assert(firsts(after) =~= firsts(before));
                proof {
                    written_map::<K, V::V>(before, after, i as int, k.meaning(), v@);
                }
            },
            Place::Missing(i) => {
                proof {
                    Self::missing_is_absent(before, i as int, k.meaning());
                }
                entries.insert(i, (k, v));
                let ghost after = listed(entries@);
                assert(after =~= before.insert(i as int, (k.meaning(), v@)));
                assert(ascending::<K>(firsts(after))) by {
                    assert forall|x: int, y: int| 0 <= x < y < firsts(after).len() implies K::order(
                        #[trigger] firsts(after)[x],
                        #[trigger] firsts(after)[y],
                    ) == Order::Less by {
                        if x < i && y > i {
                            assert(firsts(before)[x] == firsts(after)[x]);
                            assert(firsts(before)[y - 1] == firsts(after)[y]);
                        } else if x < i && y < i {
                            assert(firsts(before)[x] == firsts(after)[x]);
                            assert(firsts(before)[y] == firsts(after)[y]);
                        } else if x > i {
                            assert(firsts(before)[x - 1] == firsts(after)[x]);
                            assert(firsts(before)[y - 1] == firsts(after)[y]);
                        } else if x == i {
                            assert(before[y - 1].0 == firsts(after)[y]);
                        } else {
                            assert(before[x].0 == firsts(after)[x]);
                        }
                    }
                }
                proof {
                    written_map::<K, V::V>(before, after, i as int, k.meaning(), v@);
                }
            },
        }
        self.entries = entries;
    }

    /// Hands out the entries, in the order of their keys.
    pub fn into_entries(self) -> (r: Vec<(K, V)>)
        ensures
            r@.map_values(|e: (K, V)| (e.0.meaning(), e.1@)) == self.listing(),
            ascending::<K>(firsts(self.listing())),
    {
        proof {
            use_type_invariant(&self);
        }
        self.entries
    }
}

/// What a group holds: nothing where there is no group.
pub open spec fn group<A, T>(m: Map<A, Seq<T>>, k: A) -> Seq<T> {
    if m.dom().contains(k) {
        m[k]
    } else {
        Seq::empty()
    }
}

impl<K: Key, T> OrderedMap<K, Vec<T>> {
    /// Puts an item behind the others in the group of a key.
    pub fn push(&mut self, k: K, item: T)
        ensures
            final(self)@ == old(self)@.insert(k.meaning(), group(old(self)@, k.meaning()).push(item)),
    {
        proof {
            use_type_invariant(&*self);
            ascending_distinct::<K, Seq<T>>(self.listing());
        }
        match self.place(&k) {
            Place::Found(i) => {
                let ghost before = self.listing();
                assert(has_key(before, k.meaning()));
                assert(key_index(before, k.meaning()) == i);
                let mut entries: Vec<(K, Vec<T>)> = Vec::new();
                std::mem::swap(&mut entries, &mut self.entries);
                entries[i].1.push(item);
                let ghost after = listed(entries@);
                assert(after =~= before.update(
                    i as int,
                    (k.meaning(), before[i as int].1.push(item)),
                ));
                assert(firsts(after) =~= firsts(before));
                proof {
                    written_map::<K, Seq<T>>(
                        before,
                        after,
                        i as int,
                        k.meaning(),
                        before[i as int].1.push(item),
                    );
                }
                self.entries = entries;
            },
            Place::Missing(i) => {
                proof {
                    Self::missing_is_absent(self.listing(), i as int, k.meaning());
                }
                let mut first: Vec<T> = Vec::new();
                first.push(item);
                self.insert(k, first);
            },
        }
    }
}

/// Some texts in ascending order, each once.
pub fn sorted_names(names: Vec<String>) -> (r: Vec<String>)
    ensures
        ascending::<String>(text::texts(r@)),
        forall|t: Seq<char>|
            #![trigger text::texts(r@).contains(t)]
            text::texts(r@).contains(t) <==> text::texts(names@).contains(t),
{
    let mut seen: OrderedMap<String, String> = OrderedMap::new();
    let ghost all = text::texts(names@);
    let mut i: usize = 0;
    while i < names.len()
        invariant
            i <= names@.len(),
            all == text::texts(names@),
            forall|t: Seq<char>|
                #![trigger seen@.dom().contains(t)]
                seen@.dom().contains(t) <==> all.take(i as int).contains(t),
        decreases names@.len() - i,
    {
        seen.insert(names[i].clone(), String::new());
        proof {
            assert forall|t: Seq<char>| #![trigger seen@.dom().contains(t)]
                seen@.dom().contains(t) <==> all.take(i + 1).contains(t) by {
                assert(all.take(i + 1) =~= all.take(i as int).push(all[i as int]));
                assert(all.take(i + 1)[i as int] == all[i as int]);
                if all.take(i as int).contains(t) {
                    let k = choose|k: int| 0 <= k < i && all.take(i as int)[k] == t;
                    assert(all.take(i + 1)[k] == t);
                }
                if all.take(i + 1).contains(t) && t != all[i as int] {
                    let k = choose|k: int| 0 <= k < i + 1 && #[trigger] all.take(i + 1)[k] == t;
                    assert(all.take(i as int)[k] == t);
                }
            }
        }
        i = i + 1;
    }
    assert(all.take(i as int) =~= all);
    let ghost l = seen.listing();
    let n: usize = seen.len();
    let mut out: Vec<String> = Vec::new();
    let mut j: usize = 0;
    while j < n
        invariant
            l == seen.listing(),
            n == l.len(),
            j <= n,
            text::texts(out@) == firsts(l).take(j as int),
        decreases n - j,
    {
        let name = seen.key_at(j).clone();
        let ghost before = text::texts(out@);
        assert(name@ == l[j as int].0);
        assert(firsts(l)[j as int] == l[j as int].0);
        out.push(name);
        assert(text::texts(out@) =~= before.push(name@));
        assert(firsts(l).take(j + 1) =~= firsts(l).take(j as int).push(firsts(l)[j as int]));
        assert(text::texts(out@) =~= firsts(l).take(j + 1));
        j = j + 1;
    }
    proof {
        assert(firsts(l).take(n as int) =~= firsts(l));
        assert forall|t: Seq<char>|
            #![trigger text::texts(out@).contains(t)]
            text::texts(out@).contains(t) <==> all.contains(t) by {
            assert(seen@.dom().contains(t) <==> all.contains(t));
            if firsts(l).contains(t) {
                let k = choose|k: int| 0 <= k < l.len() && firsts(l)[k] == t;
                assert(l[k].0 == t);
                assert(has_key(l, t));
            }
            if has_key(l, t) {
                let k = key_index(l, t);
                assert(firsts(l)[k] == t);
            }
        }
    }
    out
}

/// A group that there is holds what it holds, and one that there is not holds nothing.
pub proof fn a_missing_group_is_empty<A, T>(m: Map<A, Seq<T>>, k: A)
    ensures
        m.dom().contains(k) ==> group(m, k) == m[k],
        !m.dom().contains(k) ==> group(m, k).len() == 0,
{
}

} // verus!
