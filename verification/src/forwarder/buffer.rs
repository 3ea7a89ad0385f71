//! The buffer of a forwarder: batches of metrics that wait to be sent.
//!
//! New batches go to the back and are sent from the front. The buffer holds a limited
//! number of metrics: where there are more, the oldest batches are dropped.
use std::collections::VecDeque;
use vstd::prelude::*;

use crate::signal::Metric;

verus! {

/// How many metrics some batches hold.
pub open spec fn total(b: Seq<Vec<Metric>>) -> nat
    decreases b.len(),
{
    if b.len() == 0 {
        0
    } else {
        b[0]@.len() + total(b.drop_first())
    }
}

/// Some batches without the oldest ones, as many as have to go for the others to hold no
/// more than `max` metrics.
pub open spec fn within(b: Seq<Vec<Metric>>, max: nat) -> Seq<Vec<Metric>>
    decreases b.len(),
{
    if total(b) <= max {
        b
    } else {
        within(b.drop_first(), max)
    }
}

/// How many batches go into a request that has `taken` metrics already: as many as fit, but
/// always one.
pub open spec fn fitting(b: Seq<Vec<Metric>>, taken: nat, max: nat) -> nat
    decreases b.len(),
{
    if b.len() == 0 {
        0
    } else {
        let t = taken + b[0]@.len();
        if taken > 0 && t > max {
            0
        } else if t >= max {
            1
        } else {
            1 + fitting(b.drop_first(), t, max)
        }
    }
}

/// The batches that wait to be sent, oldest first.
pub struct Buffer {
    batches: VecDeque<Vec<Metric>>,
    total_metrics: u128,
    buffer_max_metrics: usize,
    request_max_metrics: usize,
}

impl View for Buffer {
    type V = Seq<Vec<Metric>>;

    closed spec fn view(&self) -> Seq<Vec<Metric>> {
        self.batches@
    }
}

impl Buffer {
    /// The most metrics that the buffer holds.
    pub closed spec fn capacity(&self) -> nat {
        self.buffer_max_metrics as nat
    }

    /// The most metrics that go into one request, unless one batch has more.
    pub closed spec fn request_size(&self) -> nat {
        self.request_max_metrics as nat
    }

    #[verifier::type_invariant]
    spec fn counted(self) -> bool {
        self.total_metrics == total(self.batches@) && self.total_metrics
            <= self.buffer_max_metrics
    }

    /// An empty buffer.
    pub fn new(buffer_max_metrics: usize, request_max_metrics: usize) -> (b: Buffer)
        ensures
            b@ == Seq::<Vec<Metric>>::empty(),
            b.capacity() == buffer_max_metrics,
            b.request_size() == request_max_metrics,
    {
        Buffer {
            batches: VecDeque::new(),
            total_metrics: 0,
            buffer_max_metrics,
            request_max_metrics,
        }
    }

    /// Whether there is nothing to send. There is never more than the buffer may hold.
    pub fn is_empty(&self) -> (r: bool)
        ensures
            r == (self@.len() == 0),
            total(self@) <= self.capacity(),
            0 <= fitting(self@, 0, self.request_size()) <= self@.len(),
    {
        proof {
            use_type_invariant(self);
            fitting_within(self@, 0, self.request_size());
        }
        self.batches.len() == 0
    }

    /// Puts a batch behind the others. Where the buffer then holds too many metrics, the
    /// oldest batches are dropped. An empty batch is passed over.
    pub fn submit(&mut self, metrics: Vec<Metric>)
        ensures
            final(self).capacity() == old(self).capacity(),
            final(self).request_size() == old(self).request_size(),
            total(final(self)@) <= final(self).capacity(),
            final(self)@ == if metrics@.len() == 0 {
                old(self)@
            } else {
                within(old(self)@.push(metrics), old(self).capacity())
            },
    {
        proof {
            use_type_invariant(&*self);
        }
        if metrics.len() == 0 {
            return;
        }
        let (mut batches, count) = self.take_all();
        let count: u128 = count + metrics.len() as u128;
        proof {
            total_pushed(batches@, metrics);
        }
        batches.push_back(metrics);
        let count: u128 = drop_oldest(&mut batches, count, self.buffer_max_metrics);
        self.set(batches, count);
    }

    /// Takes every batch, with the number of metrics in them.
    fn take_all(&mut self) -> (r: (VecDeque<Vec<Metric>>, u128))
        ensures
            final(self)@ == Seq::<Vec<Metric>>::empty(),
            final(self).capacity() == old(self).capacity(),
            final(self).request_size() == old(self).request_size(),
            r.0@ == old(self)@,
            r.1 == total(old(self)@),
            r.1 <= old(self).capacity(),
    {
        proof {
            use_type_invariant(&*self);
        }
        let mut all = Buffer::new(self.buffer_max_metrics, self.request_max_metrics);
        std::mem::swap(&mut all, self);
        (all.batches, all.total_metrics)
    }

    fn set(&mut self, batches: VecDeque<Vec<Metric>>, count: u128)
        requires
            count == total(batches@),
            count <= old(self).capacity(),
        ensures
            final(self)@ == batches@,
            final(self).capacity() == old(self).capacity(),
            final(self).request_size() == old(self).request_size(),
    {
        *self = Buffer {
            batches,
            total_metrics: count,
            buffer_max_metrics: self.buffer_max_metrics,
            request_max_metrics: self.request_max_metrics,
        };
    }

    /// Takes the batches of the next request, oldest first. The first batch is always taken
    /// even where it alone is larger than a request, so that the buffer cannot get stuck.
    pub fn pop_for_send(&mut self) -> (r: Vec<Vec<Metric>>)
        ensures
            final(self).capacity() == old(self).capacity(),
            final(self).request_size() == old(self).request_size(),
            total(old(self)@) <= old(self).capacity(),
            ({
                let n = fitting(old(self)@, 0, old(self).request_size()) as int;
                &&& 0 <= n <= old(self)@.len()
                &&& r@ == old(self)@.take(n)
                &&& final(self)@ == old(self)@.skip(n)
            }),
    {
        proof {
            use_type_invariant(&*self);
        }
        let ghost all = self.batches@;
        let ghost limit = self.request_max_metrics as nat;
        let max: u128 = self.request_max_metrics as u128;
        let (mut batches, held) = self.take_all();
        let mut popped: Vec<Vec<Metric>> = Vec::new();
        let mut taken: u128 = 0;
        let mut count: u128 = held;
        let mut done = false;
        assert(all.skip(0) =~= all);
        assert(popped@ =~= all.take(0));
        while !done && batches.len() > 0
            invariant
                max == limit,
                count == total(batches@),
                taken + count == total(all),
                total(all) <= self.buffer_max_metrics,
                popped@.len() <= all.len(),
                popped@ == all.take(popped@.len() as int),
                batches@ == all.skip(popped@.len() as int),
                fitting(all, 0, limit) == popped@.len() + if done {
                    0
                } else {
                    fitting(batches@, taken as nat, limit)
                },
            decreases batches@.len(),
                if done {
                    0int
                } else {
                    1
                },
        {
            let size: u128 = batches[0].len() as u128;
            assert(batches@.drop_first() =~= batches@.skip(1));
            if taken > 0 && taken + size > max {
                done = true;
            } else {
                let ghost n = popped@.len() as int;
                assert(batches@[0] == all[n]);
                match batches.pop_front() {
                    Some(batch) => {
                        count = count - size;
                        taken = taken + size;
                        popped.push(batch);
                        assert(popped@ =~= all.take(n + 1));
                        assert(batches@ =~= all.skip(n + 1));
                    },
                    None => {},
                }
                if taken >= max {
                    done = true;
                }
            }
        }
        self.set(batches, count);
        popped
    }

    /// Puts the batches of a request that failed back before the others, in their order.
    /// Where the buffer then holds too many metrics, the oldest batches are dropped.
    pub fn requeue(&mut self, popped: Vec<Vec<Metric>>)
        ensures
            final(self).capacity() == old(self).capacity(),
            final(self).request_size() == old(self).request_size(),
            total(final(self)@) <= final(self).capacity(),
            final(self)@ == within(popped@ + old(self)@, old(self).capacity()),
    {
        proof {
            use_type_invariant(&*self);
        }
        let ghost rest = self.batches@;
        let ghost cap = self.buffer_max_metrics as int;
        let (mut batches, held) = self.take_all();
        let mut count: u128 = held;
        let mut list = popped;
        let n: usize = list.len();
        let ghost all = list@;
        assert(all.skip(n as int) + rest =~= rest);
        let mut i: usize = n;
        proof {
            assert(usize::MAX as int * (n - i) == 0) by (nonlinear_arith)
                requires
                    n == i,
            ;
        }
        while i > 0
            invariant
                i <= n,
                n == all.len(),
                list@ == all.take(i as int),
                batches@ == all.skip(i as int) + rest,
                count == total(batches@),
                count <= cap + usize::MAX as int * (n - i),
                0 <= cap <= usize::MAX,
            decreases i,
        {
            i = i - 1;
            match list.pop() {
                Some(batch) => {
                    let size: usize = batch.len();
                    let ghost before = batches@;
                    proof {
                        assert(usize::MAX as int * (n - i) == usize::MAX as int * (n - i - 1)
                            + usize::MAX) by (nonlinear_arith);
                        assert(usize::MAX as int * (n - i) <= usize::MAX as int * usize::MAX as int)
                            by (nonlinear_arith)
                            requires
                                0 <= n - i <= usize::MAX,
                        ;
                        product_fits();
                    }
                    count = count + size as u128;
                    batches.push_front(batch);
                    proof {
                        assert(batches@ =~= seq![batch] + before);
                        assert(batches@.drop_first() =~= before);
                        assert(batches@ =~= all.skip(i as int) + rest);
                        assert(list@ =~= all.take(i as int));
                    }
                },
                None => {},
            }
        }
        assert(all.skip(0) =~= all);
        let count: u128 = drop_oldest(&mut batches, count, self.buffer_max_metrics);
        self.set(batches, count);
    }
}

proof fn fitting_within(b: Seq<Vec<Metric>>, taken: nat, max: nat)
    ensures
        fitting(b, taken, max) <= b.len(),
    decreases b.len(),
{
    if b.len() > 0 {
        fitting_within(b.drop_first(), taken + b[0]@.len(), max);
    }
}

proof fn product_fits()
    ensures
        usize::MAX as int * usize::MAX as int + 2 * usize::MAX <= u128::MAX,
{
    assert(usize::MAX as int * usize::MAX as int <= u64::MAX as int * u64::MAX as int)
        by (nonlinear_arith)
        requires
            0 <= usize::MAX <= u64::MAX,
    ;
}

proof fn total_pushed(b: Seq<Vec<Metric>>, m: Vec<Metric>)
    ensures
        total(b.push(m)) == total(b) + m@.len(),
    decreases b.len(),
{
    if b.len() == 0 {
        assert(b.push(m).drop_first() =~= Seq::empty());
        reveal_with_fuel(total, 2);
    } else {
        total_pushed(b.drop_first(), m);
        assert(b.push(m).drop_first() =~= b.drop_first().push(m));
    }
}

/// Drops the oldest batches until the others hold no more than `max` metrics.
fn drop_oldest(batches: &mut VecDeque<Vec<Metric>>, count: u128, max: usize) -> (r: u128)
    requires
        count == total(old(batches)@),
    ensures
        final(batches)@ == within(old(batches)@, max as nat),
        r == total(final(batches)@),
        r <= max,
{
    let ghost all = batches@;
    let mut count: u128 = count;
    while count > max as u128
        invariant
            count == total(batches@),
            within(batches@, max as nat) == within(all, max as nat),
        decreases batches@.len(),
    {
        let ghost before = batches@;
        match batches.pop_front() {
            Some(b) => {
                assert(batches@ =~= before.drop_first());
                count = count - b.len() as u128;
            },
            None => {},
        }
    }
    count
}

// Laws

/// How many of the oldest batches are dropped.
pub open spec fn dropped(b: Seq<Vec<Metric>>, max: nat) -> nat {
    (b.len() - within(b, max).len()) as nat
}

/// The buffer never holds more than it may; it keeps the newest batches in their order, and
/// drops no batch that could have stayed.
pub proof fn newest_batches_stay(b: Seq<Vec<Metric>>, max: nat)
    ensures
        total(within(b, max)) <= max,
        within(b, max).len() <= b.len(),
        within(b, max) == b.skip(dropped(b, max) as int),
        forall|k: int| 0 <= k < dropped(b, max) ==> total(#[trigger] b.skip(k)) > max,
    decreases b.len(),
{
    if total(b) <= max {
        assert(b.skip(0) =~= b);
    } else {
        let t = b.drop_first();
        newest_batches_stay(t, max);
        assert(b.skip(dropped(b, max) as int) =~= t.skip(dropped(t, max) as int));
        assert forall|k: int| 0 <= k < dropped(b, max) implies total(#[trigger] b.skip(k)) > max by {
            if k == 0 {
                assert(b.skip(0) =~= b);
            } else {
                assert(b.skip(k) =~= t.skip(k - 1));
            }
        }
    }
}

/// A batch that fits in the buffer is never dropped when it is submitted.
pub proof fn submitted_batch_stays(b: Seq<Vec<Metric>>, m: Vec<Metric>, max: nat)
    requires
        m@.len() <= max,
    ensures
        within(b.push(m), max).len() > 0,
        within(b.push(m), max).last() == m,
{
    let all = b.push(m);
    newest_batches_stay(all, max);
    if dropped(all, max) > b.len() {
        let last = all.skip(b.len() as int);
        assert(last.drop_first() =~= Seq::empty());
        assert(last[0] == m);
        reveal_with_fuel(total, 2);
    }
}

proof fn fitting_bounds(b: Seq<Vec<Metric>>, taken: nat, max: nat)
    requires
        forall|i: int| 0 <= i < b.len() ==> (#[trigger] b[i])@.len() > 0,
    ensures
        fitting(b, taken, max) <= b.len(),
        b.len() > 0 && taken == 0 ==> fitting(b, taken, max) > 0,
        ({
            let n = fitting(b, taken, max) as int;
            &&& n == 0 || taken + total(b.take(n)) <= max || taken == 0 && n == 1
            &&& n < b.len() ==> taken + total(b.take(n)) >= max || taken + total(b.take(n + 1)) > max
        }),
    decreases b.len(),
{
    reveal_with_fuel(total, 2);
    if b.len() > 0 {
        let t = taken + b[0]@.len();
        let rest = b.drop_first();
        assert(b.take(1).drop_first() =~= Seq::empty());
        assert(b.take(1)[0] == b[0]);
        assert(b.take(0) =~= Seq::empty());
        if !(taken > 0 && t > max) && t < max {
            assert forall|i: int| 0 <= i < rest.len() implies (#[trigger] rest[i])@.len() > 0 by {
                assert(rest[i] == b[i + 1]);
            }
            fitting_bounds(rest, t, max);
            let n = fitting(rest, t, max) as int;
            assert(b.take(n + 1).drop_first() =~= rest.take(n));
            if n < rest.len() {
                assert(b.take(n + 2).drop_first() =~= rest.take(n + 1));
            }
        }
    }
}

/// A request takes the oldest batches: at least one where there is one, as many as fit, and
/// no more metrics than a request may have unless it takes a single batch.
pub proof fn request_is_bounded(b: Seq<Vec<Metric>>, max: nat)
    requires
        forall|i: int| 0 <= i < b.len() ==> (#[trigger] b[i])@.len() > 0,
    ensures
        ({
            let n = fitting(b, 0, max) as int;
            &&& 0 <= n <= b.len()
            &&& b.len() > 0 ==> n > 0
            &&& total(b.take(n)) <= max || n == 1
            &&& n < b.len() ==> total(b.take(n)) >= max || total(b.take(n + 1)) > max
        }),
{
    fitting_bounds(b, 0, max);
    assert(b.take(0) =~= Seq::empty());
}

/// Putting the batches of a request back leaves the buffer as it was: a failed request
/// loses nothing and reorders nothing.
pub proof fn requeue_undoes_pop(b: Seq<Vec<Metric>>, n: int, capacity: nat)
    requires
        0 <= n <= b.len(),
        total(b) <= capacity,
    ensures
        within(b.take(n) + b.skip(n), capacity) == b,
{
    assert(b.take(n) + b.skip(n) =~= b);
}

/// The number of metrics in some batches is that of each batch, summed.
pub proof fn metrics_are_counted(b: Seq<Vec<Metric>>, m: Vec<Metric>)
    ensures
        total(Seq::empty()) == 0,
        total(seq![m]) == m@.len(),
        total(b.push(m)) == total(b) + m@.len(),
    decreases b.len(),
{
    reveal_with_fuel(total, 2);
    assert(seq![m].drop_first() =~= Seq::empty());
    if b.len() > 0 {
        metrics_are_counted(b.drop_first(), m);
        assert(b.push(m).drop_first() =~= b.drop_first().push(m));
        assert(b.push(m)[0] == b[0]);
    } else {
        assert(b.push(m) =~= seq![m]);
    }
}

/// Nothing is dropped where everything fits.
pub proof fn what_fits_stays(b: Seq<Vec<Metric>>, max: nat)
    requires
        total(b) <= max,
    ensures
        within(b, max) == b,
{
}

} // verus!
