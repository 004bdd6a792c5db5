//! Message passing: the state a hand-built blocking channel guards behind
//! its lock, and the computations that the worker-pool demos distribute.
use vstd::prelude::*;
use std::collections::VecDeque;

verus! {

/// The buffer and live-sender count that a channel's two ends share.
pub struct Shared<T> {
    pub items: VecDeque<T>,
    pub senders: usize,
}

/// What a receiver finds when it looks at the shared state.
pub enum RecvStep<T> {
    /// The oldest buffered value, now taken.
    Item(T),
    /// Nothing buffered and no sender left: nothing can ever arrive.
    Disconnected,
    /// Nothing buffered yet, but a sender is alive: sleep and look again.
    Wait,
}

/// The error a receive reports once every sender is gone.
#[derive(Debug, Clone, Copy, PartialEq, Eq, Structural)]
pub struct Disconnected;

impl<T> Shared<T> {
    /// An empty buffer with `senders` live senders.
    pub fn new(senders: usize) -> (s: Self)
        ensures
            s.items@ == Seq::<T>::empty(),
            s.senders == senders,
    {
        Shared { items: VecDeque::new(), senders }
    }

    /// Buffers a sent value behind everything sent before it.
    pub fn push(&mut self, value: T)
        ensures
            final(self).items@ == old(self).items@.push(value),
            final(self).senders == old(self).senders,
    {
        self.items.push_back(value);
    }

    /// Adds `delta` to the live-sender count and returns the new count.
    pub fn update_senders(&mut self, delta: isize) -> (n: usize)
        requires
            delta >= 0 ==> old(self).senders + delta <= usize::MAX,
            delta < 0 ==> old(self).senders >= -delta,
        ensures
            n == final(self).senders,
            final(self).senders == old(self).senders + delta,
            final(self).items@ == old(self).items@,
    {
        if delta >= 0 {
            self.senders = self.senders + delta as usize;
        } else {
            let decrement = (0 - (delta as i128)) as usize;
            self.senders = self.senders - decrement;
        }
        self.senders
    }

    /// One look at the buffer on behalf of a receiver.
    pub fn recv_step(&mut self) -> (r: RecvStep<T>)
        ensures
            final(self).senders == old(self).senders,
            old(self).items@.len() > 0 ==> r == RecvStep::Item(old(self).items@[0])
                && final(self).items@ == old(self).items@.drop_first(),
            old(self).items@.len() == 0 ==> final(self).items@ == old(self).items@ && (if old(
                self,
            ).senders == 0 {
                r is Disconnected
            } else {
                r is Wait
            }),
    {
        match self.items.pop_front() {
            Some(item) => {
                assert(old(self).items@.drop_first() =~= self.items@);
                RecvStep::Item(item)
            },
            None => {
                if self.senders == 0 {
                    RecvStep::Disconnected
                } else {
                    RecvStep::Wait
                }
            },
        }
    }
}

/// Values come out in the order they were sent: a value pushed behind
/// `items` is received exactly after all of `items` has been received.
pub proof fn law_fifo<T>(items: Seq<T>, value: T)
    ensures
        items.push(value).take(items.len() as int) == items,
        items.push(value).skip(items.len() as int) == seq![value],
{
    assert(items.push(value).take(items.len() as int) =~= items);
    assert(items.push(value).skip(items.len() as int) =~= seq![value]);
}

/// Whether `s` is in non-decreasing order.
pub open spec fn sorted(s: Seq<i64>) -> bool {
    forall|i: int, j: int| 0 <= i <= j < s.len() ==> s[i] <= s[j]
}

/// `v` in non-decreasing order (insertion sort).
pub fn sort_values(v: Vec<i64>) -> (r: Vec<i64>)
    ensures
        sorted(r@),
        r@.to_multiset() == v@.to_multiset(),
{
    let mut r: Vec<i64> = Vec::new();
    let mut k: usize = 0;
    proof {
        broadcast use vstd::seq_lib::group_to_multiset_ensures;
        assert(v@.take(0) =~= Seq::<i64>::empty());
    }
    while k < v.len()
        invariant
            k <= v.len(),
            sorted(r@),
            r@.to_multiset() == v@.take(k as int).to_multiset(),
        decreases v.len() - k,
    {
        let x = v[k];
        let mut pos: usize = 0;
        while pos < r.len() && r[pos] <= x
            invariant
                pos <= r.len(),
                forall|i: int| 0 <= i < pos ==> r@[i] <= x,
            decreases r.len() - pos,
        {
            pos = pos + 1;
        }
        let ghost before = r@;
        r.insert(pos, x);
        proof {
            broadcast use vstd::seq_lib::group_to_multiset_ensures;
            assert(r@ =~= before.insert(pos as int, x));
            before.insert_ensures(pos as int, x);
            assert(r@ =~= before.take(pos as int).push(x) + before.skip(pos as int));
            vstd::seq_lib::lemma_multiset_commutative(before.take(pos as int).push(x), before.skip(pos as int));
            vstd::seq_lib::lemma_multiset_commutative(before.take(pos as int), before.skip(pos as int));
            assert(before =~= before.take(pos as int) + before.skip(pos as int));
            assert(v@.take(k + 1) =~= v@.take(k as int).push(x));
            assert forall|i: int, j: int| 0 <= i <= j < r@.len() implies r@[i] <= r@[j] by {
                if pos < before.len() {
                    assert(x < before[pos as int]);
                }
            }
        }
        k = k + 1;
    }
    assert(v@.take(v.len() as int) =~= v@);
    r
}

/// The job a pool worker performs on one input: squaring it.
pub fn square_job(x: i64) -> (r: i64)
    requires
        x * x <= i64::MAX,
    ensures
        r == x * x,
{
    assert(0 <= x * x) by (nonlinear_arith);
    x * x
}

/// The value worker `i` reports in the multi-producer demo.
pub fn worker_value(i: usize) -> (r: usize)
    requires
        i * 10 <= usize::MAX,
    ensures
        r == i * 10,
{
    i * 10
}

/// The sum of a sequence of integers.
pub open spec fn sum_i64(s: Seq<i64>) -> int
    decreases s.len(),
{
    if s.len() == 0 {
        0
    } else {
        sum_i64(s.drop_last()) + s.last()
    }
}

/// Every running total of `s`, from the left, fits in an `i64`.
pub open spec fn running_sums_fit(s: Seq<i64>) -> bool {
    forall|k: int| 0 <= k <= s.len() ==> i64::MIN <= #[trigger] sum_i64(s.take(k)) <= i64::MAX
}

/// Folds received values into their total.
pub fn sum_received(values: &[i64]) -> (r: i64)
    requires
        running_sums_fit(values@),
    ensures
        r == sum_i64(values@),
{
    let mut total: i64 = 0;
    let mut k: usize = 0;
    assert(values@.take(0) =~= Seq::<i64>::empty());
    while k < values.len()
        invariant
            k <= values.len(),
            total == sum_i64(values@.take(k as int)),
            running_sums_fit(values@),
        decreases values.len() - k,
    {
        assert(values@.take(k + 1).drop_last() =~= values@.take(k as int));
        assert(i64::MIN <= sum_i64(values@.take(k + 1)) <= i64::MAX);
        total = total + values[k];
        k = k + 1;
    }
    assert(values@.take(values.len() as int) =~= values@);
    total
}

/// Takes the sent value back out of a refused send.
pub fn recover_unsent<T>(value: Result<(), T>) -> (r: Option<T>)
    ensures
        value matches Err(v) ==> r == Some(v),
        value is Ok ==> r is None,
{
    match value {
        Ok(()) => None,
        Err(v) => Some(v),
    }
}

} // verus!
