//! What the `impl Trait` demos compute, with their iterator chains written
//! as loops over vectors and one hand-rolled iterator.
use vstd::prelude::*;
use vstd::string::StringSliceAdditionalSpecFns;
use crate::text::{push_str, format_i64, signed_decimal, uppercase_of, to_uppercase};

verus! {

/// A value shown in square brackets.
pub fn describe(x: i64) -> (s: String)
    ensures
        s@ == "["@ + signed_decimal(x as int) + "]"@,
{
    let mut s = "[".to_owned();
    let d = format_i64(x);
    push_str(&mut s, d.as_str());
    push_str(&mut s, "]");
    s
}

/// How many characters a value takes when shown.
pub fn count_args(x: i64) -> (n: usize)
    ensures
        n == signed_decimal(x as int).len(),
{
    let d = format_i64(x);
    let cs = crate::text::chars_of(d.as_str());
    cs.len()
}

/// The even numbers below `n`, in order.
pub fn evens_up_to(n: u32) -> (v: Vec<u32>)
    ensures
        v@.len() == (n as int + 1) / 2,
        forall|i: int| 0 <= i < v@.len() ==> #[trigger] v@[i] == 2 * i,
{
    let count: u32 = n / 2 + n % 2;
    let mut v: Vec<u32> = Vec::new();
    let mut i: u32 = 0;
    while i < count
        invariant
            i <= count,
            count == n / 2 + n % 2,
            v@.len() == i,
            forall|k: int| 0 <= k < v@.len() ==> #[trigger] v@[k] == 2 * k,
        decreases count - i,
    {
        v.push(2 * i);
        i = i + 1;
    }
    v
}

/// The words longer than three bytes, upper-cased, in order.
pub open spec fn shout_long(ws: Seq<&str>) -> Seq<Seq<char>>
    decreases ws.len(),
{
    if ws.len() == 0 {
        seq![]
    } else {
        let prev = shout_long(ws.drop_last());
        if ws.last().spec_bytes().len() as usize > 3 {
            prev.push(uppercase_of(ws.last()@))
        } else {
            prev
        }
    }
}

/// Keeps the words longer than three bytes and upper-cases them.
pub fn pipeline(words: &[&str]) -> (out: Vec<String>)
    ensures
        out@.map_values(|s: String| s@) == shout_long(words@),
{
    let mut out: Vec<String> = Vec::new();
    let mut k: usize = 0;
    while k < words.len()
        invariant
            k <= words.len(),
            out@.map_values(|s: String| s@) == shout_long(words@.take(k as int)),
        decreases words.len() - k,
    {
        assert(words@.take(k + 1).drop_last() =~= words@.take(k as int));
        let w = words[k];
        if w.len() > 3 {
            out.push(to_uppercase(w));
        }
        k = k + 1;
        assert(out@.map_values(|s: String| s@) =~= shout_long(words@.take(k as int)));
    }
    assert(words@.take(words.len() as int) =~= words@);
    out
}

/// `0..n`, counting up or (when `rev`) down.
pub open spec fn ranged_seq(rev: bool, n: u32) -> Seq<u32> {
    Seq::new(n as nat, |i: int| if rev { (n - 1 - i) as u32 } else { i as u32 })
}

/// `0..n` collected into a vector, forwards or backwards.
pub fn ranged_vec(rev: bool, n: u32) -> (v: Vec<u32>)
    ensures
        v@ == ranged_seq(rev, n),
{
    let mut v: Vec<u32> = Vec::new();
    let mut i: u32 = 0;
    while i < n
        invariant
            i <= n,
            v@ == ranged_seq(rev, n).take(i as int),
        decreases n - i,
    {
        if rev {
            v.push(n - 1 - i);
        } else {
            v.push(i);
        }
        i = i + 1;
        assert(v@ =~= ranged_seq(rev, n).take(i as int));
    }
    assert(ranged_seq(rev, n).take(n as int) =~= ranged_seq(rev, n));
    v
}

/// Counting up or down over `0..n`, one variant per direction.
pub enum Ranged {
    /// Yields `cur`, `cur + 1`, ... below `end`.
    Up { cur: u32, end: u32 },
    /// Yields `cur - 1`, `cur - 2`, ... down to 0.
    Down { cur: u32 },
}

impl Ranged {
    /// What the iterator still yields.
    pub open spec fn remaining(&self) -> Seq<u32> {
        match self {
            Ranged::Up { cur, end } => Seq::new(
                if *cur <= *end {
                    (*end - *cur) as nat
                } else {
                    0
                },
                |i: int| (*cur + i) as u32,
            ),
            Ranged::Down { cur } => Seq::new(*cur as nat, |i: int| (*cur - 1 - i) as u32),
        }
    }

    /// The next value, if any.
    pub fn next(&mut self) -> (r: Option<u32>)
        ensures
            old(self).remaining().len() == 0 ==> r is None && final(self).remaining().len() == 0,
            old(self).remaining().len() > 0 ==> r == Some(old(self).remaining()[0])
                && final(self).remaining() == old(self).remaining().drop_first(),
    {
        match self {
            Ranged::Up { cur, end } => {
                if *cur < *end {
                    let v = *cur;
                    *cur = *cur + 1;
                    assert(self.remaining() =~= old(self).remaining().drop_first());
                    Some(v)
                } else {
                    None
                }
            },
            Ranged::Down { cur } => {
                if *cur > 0 {
                    *cur = *cur - 1;
                    let v = *cur;
                    assert(self.remaining() =~= old(self).remaining().drop_first());
                    Some(v)
                } else {
                    None
                }
            },
        }
    }
}

/// `0..n` as an iterator that picks its direction at run time.
pub fn ranged_either(rev: bool, n: u32) -> (it: Ranged)
    ensures
        it.remaining() == ranged_seq(rev, n),
{
    let it = if rev {
        Ranged::Down { cur: n }
    } else {
        Ranged::Up { cur: 0, end: n }
    };
    assert(it.remaining() =~= ranged_seq(rev, n));
    it
}

/// Everything `it` still yields, collected.
pub fn collect_ranged(start: Ranged) -> (v: Vec<u32>)
    ensures
        v@ == start.remaining(),
{
    let mut it = start;
    let mut v: Vec<u32> = Vec::new();
    assert(start.remaining() =~= v@ + it.remaining());
    loop
        invariant
            start.remaining() == v@ + it.remaining(),
        decreases it.remaining().len(),
    {
        let ghost before = it.remaining();
        let ghost vb = v@;
        match it.next() {
            Some(x) => {
                v.push(x);
                assert(v@ + it.remaining() =~= vb + before);
            },
            None => {
                assert(start.remaining() =~= v@);
                return v;
            },
        }
    }
}

/// The byte length of each word.
pub fn lengths(words: &[&str]) -> (v: Vec<usize>)
    ensures
        v@.len() == words@.len(),
        forall|i: int| 0 <= i < words@.len() ==> #[trigger] v@[i] == words@[i].spec_bytes().len() as usize,
{
    let mut v: Vec<usize> = Vec::new();
    let mut k: usize = 0;
    while k < words.len()
        invariant
            k <= words.len(),
            v@.len() == k,
            forall|i: int| 0 <= i < k ==> #[trigger] v@[i] == words@[i].spec_bytes().len() as usize,
        decreases words.len() - k,
    {
        v.push(words[k].len());
        k = k + 1;
    }
    v
}

/// The values a `Squares` source yields: the squares of 1, 2 and 3.
pub fn squares_values() -> (v: Vec<u32>)
    ensures
        v@ == seq![1u32, 4, 9],
{
    let mut v: Vec<u32> = Vec::new();
    let mut x: u32 = 1;
    while x <= 3
        invariant
            1 <= x <= 4,
            v@.len() == x - 1,
            forall|i: int| 0 <= i < v@.len() ==> #[trigger] v@[i] == (i + 1) * (i + 1),
        decreases 4 - x,
    {
        assert(x * x <= 16) by (nonlinear_arith)
            requires
                1 <= x <= 3;
        v.push(x * x);
        x = x + 1;
    }
    assert(v@[0] == 1 && v@[1] == 4 && v@[2] == 9);
    assert(v@ =~= seq![1u32, 4, 9]);
    v
}

/// The sum of a source's values.
pub fn sum_source(values: &[u32]) -> (total: u64)
    requires
        values.len() <= 0xffff_ffff,
    ensures
        total == crate::concurrency_models::sum_u64(values@.map_values(|x: u32| x as u64)),
{
    let ghost wide = values@.map_values(|x: u32| x as u64);
    let mut total: u64 = 0;
    let mut k: usize = 0;
    assert(wide.take(0) =~= Seq::<u64>::empty());
    while k < values.len()
        invariant
            k <= values.len(),
            values.len() <= 0xffff_ffff,
            wide == values@.map_values(|x: u32| x as u64),
            total == crate::concurrency_models::sum_u64(wide.take(k as int)),
            total <= k * 0xffff_ffff,
        decreases values.len() - k,
    {
        assert(wide.take(k + 1).drop_last() =~= wide.take(k as int));
        assert(total + values[k as int] <= (k + 1) * 0xffff_ffff) by (nonlinear_arith)
            requires
                total <= k * 0xffff_ffff,
                values[k as int] <= 0xffff_ffff;
        assert(k * 0xffff_ffff <= 0xffff_ffff * 0xffff_ffff) by (nonlinear_arith)
            requires
                k <= 0xffff_ffff;
        total = total + values[k] as u64;
        k = k + 1;
    }
    assert(wide.take(values.len() as int) =~= wide);
    total
}

/// What a named robot says.
pub fn robot_greeting(name: &str) -> (s: String)
    ensures
        s@ == "beep "@ + name@,
{
    let mut s = "beep ".to_owned();
    push_str(&mut s, name);
    s
}

/// Applies `f`, then `g`.
pub fn compose_apply<F: Fn(i32) -> i32, G: Fn(i32) -> i32>(f: F, g: G, a: i32) -> (c: i32)
    requires
        call_requires(f, (a,)),
        forall|b: i32| call_ensures(f, (a,), b) ==> call_requires(g, (b,)),
    ensures
        exists|b: i32| call_ensures(f, (a,), b) && call_ensures(g, (b,), c),
{
    let b = f(a);
    g(b)
}

/// An operation on natural numbers, chosen at run time.
#[derive(Debug, Clone, Copy, PartialEq, Eq, Structural)]
pub enum Op {
    Inc,
    Double,
    Square,
}

/// What `op` makes of `x`.
pub open spec fn op_value(op: Op, x: int) -> int {
    match op {
        Op::Inc => x + 1,
        Op::Double => x * 2,
        Op::Square => x * x,
    }
}

impl Op {
    pub fn apply(&self, x: u64) -> (r: u64)
        requires
            op_value(*self, x as int) <= u64::MAX,
        ensures
            r == op_value(*self, x as int),
    {
        match self {
            Op::Inc => x + 1,
            Op::Double => x * 2,
            Op::Square => x * x,
        }
    }
}

/// The first `k` natural numbers, from 1.
pub fn naturals(k: u64) -> (v: Vec<u64>)
    requires
        k < u64::MAX,
    ensures
        v@.len() == k,
        forall|i: int| 0 <= i < k ==> #[trigger] v@[i] == i + 1,
{
    let mut v: Vec<u64> = Vec::new();
    let mut i: u64 = 0;
    while i < k
        invariant
            i <= k,
            k < u64::MAX,
            v@.len() == i,
            forall|j: int| 0 <= j < i ==> #[trigger] v@[j] == j + 1,
        decreases k - i,
    {
        v.push(i + 1);
        i = i + 1;
    }
    v
}

/// The even values of `input`, in order.
pub open spec fn evens_of(input: Seq<u64>) -> Seq<u64>
    decreases input.len(),
{
    if input.len() == 0 {
        seq![]
    } else {
        let prev = evens_of(input.drop_last());
        if input.last() % 2 == 0 {
            prev.push(input.last())
        } else {
            prev
        }
    }
}

/// Keeps the even values.
pub fn keep_even(input: &[u64]) -> (v: Vec<u64>)
    ensures
        v@ == evens_of(input@),
{
    let mut v: Vec<u64> = Vec::new();
    let mut k: usize = 0;
    while k < input.len()
        invariant
            k <= input.len(),
            v@ == evens_of(input@.take(k as int)),
        decreases input.len() - k,
    {
        assert(input@.take(k + 1).drop_last() =~= input@.take(k as int));
        if input[k] % 2 == 0 {
            v.push(input[k]);
        }
        k = k + 1;
    }
    assert(input@.take(input.len() as int) =~= input@);
    v
}

/// Multiplies every value by `factor`.
pub fn mul_stage(input: &[u64], factor: u64) -> (v: Vec<u64>)
    requires
        forall|i: int| 0 <= i < input.len() ==> #[trigger] input@[i] * factor <= u64::MAX,
    ensures
        v@.len() == input@.len(),
        forall|i: int| 0 <= i < input.len() ==> #[trigger] v@[i] == input@[i] * factor,
{
    let mut v: Vec<u64> = Vec::new();
    let mut k: usize = 0;
    while k < input.len()
        invariant
            k <= input.len(),
            forall|i: int| 0 <= i < input.len() ==> #[trigger] input@[i] * factor <= u64::MAX,
            v@.len() == k,
            forall|i: int| 0 <= i < k ==> #[trigger] v@[i] == input@[i] * factor,
        decreases input.len() - k,
    {
        v.push(input[k] * factor);
        k = k + 1;
    }
    v
}

} // verus!
