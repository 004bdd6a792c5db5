//! Futures as explicit state machines: each poll either finishes with a value
//! or reports that more polls are needed, and a driver polls until done.
use vstd::prelude::*;

verus! {

/// The result of one poll.
#[derive(Debug)]
pub enum Poll<T> {
    Ready(T),
    Pending,
}

/// A computation advanced one poll at a time.
pub trait PollOnce: Sized {
    type Output;

    /// Whether the computation may be polled again.
    spec fn live(&self) -> bool;

    /// How many more polls at most will come back pending.
    spec fn remaining(&self) -> nat;

    /// The value the computation finishes with.
    spec fn outcome(&self) -> Self::Output;

    fn poll(&mut self) -> (r: Poll<Self::Output>)
        requires
            old(self).live(),
        ensures
            match r {
                Poll::Ready(v) => v == old(self).outcome() && old(self).remaining() == 0,
                Poll::Pending => final(self).live() && final(self).remaining() < old(self).remaining()
                    && final(self).outcome() == old(self).outcome(),
            },
    ;
}

/// Polls `fut` until it finishes and returns its value: a busy executor.
pub fn block_on<F: PollOnce>(start: F) -> (v: F::Output)
    requires
        start.live(),
    ensures
        v == start.outcome(),
{
    let mut fut = start;
    loop
        invariant
            fut.live(),
            fut.outcome() == start.outcome(),
        decreases fut.remaining(),
    {
        match fut.poll() {
            Poll::Ready(v) => return v,
            Poll::Pending => {},
        }
    }
}

/// A future that is complete from the start.
pub struct Ready<T> {
    pub value: Option<T>,
}

/// A future holding `value`, ready on its first poll.
pub fn ready<T>(value: T) -> (f: Ready<T>)
    ensures
        f.live(),
        f.outcome() == value,
        f.remaining() == 0,
{
    Ready { value: Some(value) }
}

impl<T> PollOnce for Ready<T> {
    type Output = T;

    open spec fn live(&self) -> bool {
        self.value is Some
    }

    open spec fn remaining(&self) -> nat {
        0
    }

    open spec fn outcome(&self) -> T {
        self.value->Some_0
    }

    fn poll(&mut self) -> (r: Poll<T>) {
        match self.value.take() {
            Some(v) => Poll::Ready(v),
            None => Poll::Pending,
        }
    }
}

/// A future that is pending on its first poll and then finishes with
/// `value`.
pub struct YieldOnce<T> {
    pub value: T,
    pub yielded: bool,
}

/// Suspends once, then finishes with `()`.
pub fn yield_once() -> (f: YieldOnce<()>)
    ensures
        f.live(),
        f.remaining() == 1,
{
    YieldOnce { value: (), yielded: false }
}

impl<T: Copy> PollOnce for YieldOnce<T> {
    type Output = T;

    open spec fn live(&self) -> bool {
        true
    }

    open spec fn remaining(&self) -> nat {
        if self.yielded {
            0
        } else {
            1
        }
    }

    open spec fn outcome(&self) -> T {
        self.value
    }

    fn poll(&mut self) -> (r: Poll<T>) {
        if self.yielded {
            Poll::Ready(self.value)
        } else {
            self.yielded = true;
            Poll::Pending
        }
    }
}

/// A leaf future that pends once, then yields 20.
pub fn fut_a() -> (f: YieldOnce<i32>)
    ensures
        f.live(),
        f.outcome() == 20,
        f.remaining() == 1,
{
    YieldOnce { value: 20, yielded: false }
}

/// A leaf future that pends once, then yields 22.
pub fn fut_b() -> (f: YieldOnce<i32>)
    ensures
        f.live(),
        f.outcome() == 22,
        f.remaining() == 1,
{
    YieldOnce { value: 22, yielded: false }
}

/// A future that pends once, then yields `value`.
pub fn wake_yield(value: i32) -> (f: YieldOnce<i32>)
    ensures
        f.live(),
        f.outcome() == value,
        f.remaining() == 1,
{
    YieldOnce { value, yielded: false }
}

/// Awaits `fut_a`, then `fut_b`, and adds the two: one state per
/// suspension point.
pub enum TwoStep {
    Running1 { a_fut: YieldOnce<i32> },
    Running2 { b_fut: YieldOnce<i32>, a: i32 },
    Done,
}

/// The two-step computation, not yet polled.
pub fn two_step() -> (t: TwoStep)
    ensures
        t.live(),
        t.outcome() == 42,
        t.remaining() == 2,
{
    TwoStep::Running1 { a_fut: fut_a() }
}

impl PollOnce for TwoStep {
    type Output = i32;

    open spec fn live(&self) -> bool {
        match self {
            TwoStep::Running1 { a_fut } => a_fut.value == 20,
            TwoStep::Running2 { b_fut, a } => b_fut.value == 22 && *a == 20,
            TwoStep::Done => false,
        }
    }

    open spec fn remaining(&self) -> nat {
        match self {
            TwoStep::Running1 { a_fut } => 1 + a_fut.remaining(),
            TwoStep::Running2 { b_fut, .. } => b_fut.remaining(),
            TwoStep::Done => 0,
        }
    }

    open spec fn outcome(&self) -> i32 {
        42
    }

    fn poll(&mut self) -> (r: Poll<i32>) {
        match self {
            TwoStep::Running1 { a_fut } => {
                match a_fut.poll() {
                    Poll::Ready(a) => {
                        let mut b_fut = fut_b();
                        let rb = b_fut.poll();
                        *self = TwoStep::Running2 { b_fut, a };
                        match rb {
                            Poll::Ready(b) => {
                                *self = TwoStep::Done;
                                Poll::Ready(a + b)
                            },
                            Poll::Pending => Poll::Pending,
                        }
                    },
                    Poll::Pending => Poll::Pending,
                }
            },
            TwoStep::Running2 { b_fut, a } => {
                match b_fut.poll() {
                    Poll::Ready(b) => {
                        let total = *a + b;
                        *self = TwoStep::Done;
                        Poll::Ready(total)
                    },
                    Poll::Pending => Poll::Pending,
                }
            },
            TwoStep::Done => Poll::Pending,
        }
    }
}

/// Drives two futures side by side; done when both are.
pub struct Join<A: PollOnce, B: PollOnce> {
    pub a: Option<A>,
    pub a_out: Option<A::Output>,
    pub b: Option<B>,
    pub b_out: Option<B::Output>,
}

/// Joins `a` and `b`.
pub fn join<A: PollOnce, B: PollOnce>(a: A, b: B) -> (j: Join<A, B>)
    requires
        a.live(),
        b.live(),
    ensures
        j.live(),
        j.outcome() == (a.outcome(), b.outcome()),
        j.remaining() == if a.remaining() >= b.remaining() {
            a.remaining()
        } else {
            b.remaining()
        },
{
    Join { a: Some(a), a_out: None, b: Some(b), b_out: None }
}

/// How many more pending polls one side of a join has.
pub open spec fn side_remaining<F: PollOnce>(f: Option<F>) -> nat {
    match f {
        Some(x) => x.remaining(),
        None => 0,
    }
}

/// The value one side of a join finishes with.
pub open spec fn side_outcome<F: PollOnce>(f: Option<F>, out: Option<F::Output>) -> F::Output {
    match out {
        Some(v) => v,
        None => f->Some_0.outcome(),
    }
}

/// Whether one side of a join is either still running or has finished.
pub open spec fn side_live<F: PollOnce>(f: Option<F>, out: Option<F::Output>) -> bool {
    match f {
        Some(x) => x.live() && out is None,
        None => out is Some,
    }
}

impl<A: PollOnce, B: PollOnce> PollOnce for Join<A, B> {
    type Output = (A::Output, B::Output);

    open spec fn live(&self) -> bool {
        side_live(self.a, self.a_out) && side_live(self.b, self.b_out)
    }

    open spec fn remaining(&self) -> nat {
        let ra = side_remaining(self.a);
        let rb = side_remaining(self.b);
        if ra >= rb {
            ra
        } else {
            rb
        }
    }

    open spec fn outcome(&self) -> (A::Output, B::Output) {
        (side_outcome(self.a, self.a_out), side_outcome(self.b, self.b_out))
    }

    fn poll(&mut self) -> (r: Poll<(A::Output, B::Output)>) {
        let mut a_side = self.a.take();
        let mut done_a = false;
        let mut out_a: Option<A::Output> = None;
        match &mut a_side {
            Some(fa) => {
                match fa.poll() {
                    Poll::Ready(v) => {
                        out_a = Some(v);
                        done_a = true;
                    },
                    Poll::Pending => {},
                }
            },
            None => {},
        }
        if done_a {
            self.a_out = out_a;
            self.a = None;
        } else {
            self.a = a_side;
        }
        let mut b_side = self.b.take();
        let mut done_b = false;
        let mut out_b: Option<B::Output> = None;
        match &mut b_side {
            Some(fb) => {
                match fb.poll() {
                    Poll::Ready(v) => {
                        out_b = Some(v);
                        done_b = true;
                    },
                    Poll::Pending => {},
                }
            },
            None => {},
        }
        if done_b {
            self.b_out = out_b;
            self.b = None;
        } else {
            self.b = b_side;
        }
        if self.a_out.is_some() && self.b_out.is_some() {
            let x = self.a_out.take();
            let y = self.b_out.take();
            match (x, y) {
                (Some(x), Some(y)) => Poll::Ready((x, y)),
                _ => Poll::Pending,
            }
        } else {
            Poll::Pending
        }
    }
}

/// What `compute(n)` returns: `n + 2n` when `n` is even, `n` otherwise.
pub open spec fn compute_spec(n: int) -> int {
    if n % 2 == 0 {
        n + 2 * n
    } else {
        n
    }
}

/// The state machine of `compute`: await one value, and on the even branch
/// await a second one.
pub enum BranchMachine {
    Await1 { fut1: YieldOnce<i32> },
    Await2 { fut2: YieldOnce<i32>, a: i32 },
    Done,
}

/// `compute(n)` as a state machine, not yet polled.
pub fn compute_machine(n: i32) -> (m: BranchMachine)
    requires
        i32::MIN <= 3 * n <= i32::MAX,
    ensures
        m.live(),
        m.outcome() == compute_spec(n as int),
{
    BranchMachine::Await1 { fut1: wake_yield(n) }
}

impl PollOnce for BranchMachine {
    type Output = i32;

    open spec fn live(&self) -> bool {
        match self {
            BranchMachine::Await1 { fut1 } => i32::MIN <= 3 * fut1.value <= i32::MAX,
            BranchMachine::Await2 { fut2, a } => fut2.value == 2 * *a && i32::MIN <= 3 * *a
                <= i32::MAX,
            BranchMachine::Done => false,
        }
    }

    open spec fn remaining(&self) -> nat {
        match self {
            BranchMachine::Await1 { fut1 } => fut1.remaining() + if fut1.value % 2 == 0 {
                1nat
            } else {
                0nat
            },
            BranchMachine::Await2 { fut2, .. } => fut2.remaining(),
            BranchMachine::Done => 0,
        }
    }

    open spec fn outcome(&self) -> i32 {
        match self {
            BranchMachine::Await1 { fut1 } => compute_spec(fut1.value as int) as i32,
            BranchMachine::Await2 { a, .. } => (3 * *a) as i32,
            BranchMachine::Done => 0,
        }
    }

    fn poll(&mut self) -> (r: Poll<i32>) {
        match self {
            BranchMachine::Await1 { fut1 } => {
                match fut1.poll() {
                    Poll::Ready(a) => {
                        if a % 2 == 0 {
                            let mut fut2 = wake_yield(a * 2);
                            let rb = fut2.poll();
                            *self = BranchMachine::Await2 { fut2, a };
                            match rb {
                                Poll::Ready(b) => {
                                    *self = BranchMachine::Done;
                                    Poll::Ready(a + b)
                                },
                                Poll::Pending => Poll::Pending,
                            }
                        } else {
                            *self = BranchMachine::Done;
                            Poll::Ready(a)
                        }
                    },
                    Poll::Pending => Poll::Pending,
                }
            },
            BranchMachine::Await2 { fut2, a } => {
                match fut2.poll() {
                    Poll::Ready(b) => {
                        let total = *a + b;
                        *self = BranchMachine::Done;
                        Poll::Ready(total)
                    },
                    Poll::Pending => Poll::Pending,
                }
            },
            BranchMachine::Done => Poll::Pending,
        }
    }
}

/// Running the hand-written state machine gives what the `async fn` body
/// computes, on both branches.
pub proof fn law_machine_matches_async(n: int)
    requires
        i32::MIN <= 3 * n <= i32::MAX,
    ensures
        n % 2 == 0 ==> compute_spec(n) == 3 * n,
        n % 2 != 0 ==> compute_spec(n) == n,
{
}

} // verus!
