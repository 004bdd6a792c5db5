//! Closures and the `Fn` family: capturing, calling through each bound,
//! closures written out as structs, and closure factories.
use vstd::prelude::*;
use crate::text::{format_u64, concat, decimal};

verus! {

/// Multiplies each number by a captured factor.
pub fn make_and_use(factor: i32, nums: &[i32]) -> (r: Vec<i32>)
    requires
        forall|i: int| 0 <= i < nums.len() ==> i32::MIN <= #[trigger] nums@[i] * factor <= i32::MAX,
    ensures
        r@.len() == nums@.len(),
        forall|i: int| 0 <= i < nums.len() ==> #[trigger] r@[i] == nums@[i] * factor,
{
    let mut r: Vec<i32> = Vec::new();
    let mut i: usize = 0;
    while i < nums.len()
        invariant
            i <= nums.len(),
            forall|j: int| 0 <= j < nums.len() ==> i32::MIN <= #[trigger] nums@[j] * factor <= i32::MAX,
            r@.len() == i,
            forall|j: int| 0 <= j < i ==> #[trigger] r@[j] == nums@[j] * factor,
        decreases nums.len() - i,
    {
        r.push(nums[i] * factor);
        i = i + 1;
    }
    r
}

/// Sums data read through a shared borrow.
pub fn borrow_capture(data: &Vec<i32>) -> (r: i32)
    requires
        crate::cell_refcell::running_sums_fit_i32(data@),
    ensures
        r == crate::cell_refcell::sum_i32(data@),
{
    crate::cell_refcell::sum_slice(data.as_slice())
}

/// The three log lines a mutably-capturing recorder writes.
pub fn mut_capture() -> (r: Vec<String>)
    ensures
        r@.len() == 3,
        forall|i: int| 0 <= i < 3 ==> #[trigger] r@[i]@ == "event "@ + decimal(i as nat),
{
    let mut log: Vec<String> = Vec::new();
    let mut i: u64 = 0;
    while i < 3
        invariant
            i <= 3,
            log@.len() == i,
            forall|j: int| 0 <= j < i ==> #[trigger] log@[j]@ == "event "@ + decimal(j as nat),
        decreases 3 - i,
    {
        let n = format_u64(i);
        log.push(concat("event ", n.as_str()));
        i = i + 1;
    }
    log
}

/// A closure that owns a string and reports its byte length when called.
pub struct LenOf {
    pub owned: String,
}

impl LenOf {
    pub fn call(&self) -> (n: usize)
        ensures
            n == vstd::utf8::encode_utf8(self.owned@).len() as usize,
    {
        self.owned.as_str().len()
    }
}

/// Moves the string into a closure that reports its length.
pub fn move_capture(owned: String) -> (f: LenOf)
    ensures
        f.owned == owned,
{
    LenOf { owned }
}

/// Calls `f` twice and adds the results.
pub fn apply_fn<F: Fn() -> i32>(f: F) -> (r: i32)
    requires
        call_requires(f, ()),
        forall|a: i32, b: i32|
            call_ensures(f, (), a) && call_ensures(f, (), b) ==> i32::MIN <= a + b <= i32::MAX,
    ensures
        exists|a: i32, b: i32| call_ensures(f, (), a) && call_ensures(f, (), b) && r == a + b,
{
    let a = f();
    let b = f();
    a + b
}

/// Calls `f` once.
pub fn apply_once<F: FnOnce() -> i32>(f: F) -> (r: i32)
    requires
        call_requires(f, ()),
    ensures
        call_ensures(f, (), r),
{
    f()
}

/// The closure `move |x| x + offset`, written out as a struct.
pub struct AddOffset {
    pub offset: i32,
}

impl AddOffset {
    pub fn call(&self, x: i32) -> (r: i32)
        requires
            i32::MIN <= x + self.offset <= i32::MAX,
        ensures
            r == x + self.offset,
    {
        x + self.offset
    }
}

/// The closure `move || { count += step; count }`, written out as a struct.
pub struct Counter {
    pub count: i32,
    pub step: i32,
}

impl Counter {
    pub fn call_mut(&mut self) -> (r: i32)
        requires
            i32::MIN <= old(self).count + old(self).step <= i32::MAX,
        ensures
            final(self).count == old(self).count + old(self).step,
            final(self).step == old(self).step,
            r == final(self).count,
    {
        self.count = self.count + self.step;
        self.count
    }
}

/// A closure that hands out the string it owns; calling it consumes it.
pub struct Unwrapper {
    pub s: String,
}

impl Unwrapper {
    pub fn call_once(self) -> (r: String)
        ensures
            r == self.s,
    {
        self.s
    }
}

/// Moves the string into a call-once closure.
pub fn unwrap_factory(s: String) -> (f: Unwrapper)
    ensures
        f.s == s,
{
    Unwrapper { s }
}

/// Calls the counter `n` times and collects what it returns.
pub fn run_n_times(f: &mut Counter, n: usize) -> (r: Vec<i32>)
    requires
        old(f).step >= 0,
        old(f).count + n * old(f).step <= i32::MAX,
    ensures
        r@.len() == n,
        forall|i: int| 0 <= i < n ==> #[trigger] r@[i] == old(f).count + (i + 1) * old(f).step,
        final(f).step == old(f).step,
        final(f).count == old(f).count + n * old(f).step,
{
    let mut results: Vec<i32> = Vec::new();
    let mut i: usize = 0;
    while i < n
        invariant
            i <= n,
            f.step == old(f).step,
            f.step >= 0,
            old(f).count + n * old(f).step <= i32::MAX,
            f.count == old(f).count + i * old(f).step,
            results@.len() == i,
            forall|j: int| 0 <= j < i ==> #[trigger] results@[j] == old(f).count + (j + 1) * old(f).step,
        decreases n - i,
    {
        proof {
            assert((i + 1) * f.step <= n * f.step) by (nonlinear_arith)
                requires i + 1 <= n, f.step >= 0;
            assert(i * f.step >= 0) by (nonlinear_arith)
                requires i >= 0, f.step >= 0;
            assert((i + 1) * f.step == i * f.step + f.step) by (nonlinear_arith);
        }
        let v = f.call_mut();
        results.push(v);
        i = i + 1;
    }
    results
}

/// The closure `move |x| x + n`, returned by [`make_adder`].
pub struct Adder {
    pub n: i32,
}

impl Adder {
    pub fn call(&self, x: i32) -> (y: i32)
        requires
            i32::MIN <= x + self.n <= i32::MAX,
        ensures
            y == x + self.n,
    {
        x + self.n
    }
}

/// A closure that adds `n` to its argument.
pub fn make_adder(n: i32) -> (f: Adder)
    ensures
        f.n == n,
{
    Adder { n }
}

/// An arithmetic operation picked at run time.
#[derive(Debug, Clone, Copy, PartialEq, Eq, Structural)]
pub enum BinOp {
    Plus,
    Minus,
    Times,
    Zero,
}

/// The result of applying `op` to `a` and `b`.
pub open spec fn binop_value(op: BinOp, a: int, b: int) -> int {
    match op {
        BinOp::Plus => a + b,
        BinOp::Minus => a - b,
        BinOp::Times => a * b,
        BinOp::Zero => 0,
    }
}

impl BinOp {
    pub fn apply(&self, a: i32, b: i32) -> (r: i32)
        requires
            i32::MIN <= binop_value(*self, a as int, b as int) <= i32::MAX,
        ensures
            r == binop_value(*self, a as int, b as int),
    {
        match self {
            BinOp::Plus => a + b,
            BinOp::Minus => a - b,
            BinOp::Times => a * b,
            BinOp::Zero => 0,
        }
    }
}

/// `'+'`, `'-'` and `'*'` pick their operation; anything else gives zero.
pub fn pick_op(op: char) -> (r: BinOp)
    ensures
        r == (if op == '+' {
            BinOp::Plus
        } else if op == '-' {
            BinOp::Minus
        } else if op == '*' {
            BinOp::Times
        } else {
            BinOp::Zero
        }),
{
    match op {
        '+' => BinOp::Plus,
        '-' => BinOp::Minus,
        '*' => BinOp::Times,
        _ => BinOp::Zero,
    }
}

/// Three times `x`.
pub fn triple(x: i32) -> (r: i32)
    requires
        i32::MIN <= 3 * x <= i32::MAX,
    ensures
        r == 3 * x,
{
    x * 3
}

/// Maps every element through `f`.
pub fn transform_all<F: Fn(i32) -> i32>(xs: &[i32], f: F) -> (r: Vec<i32>)
    requires
        forall|i: int| 0 <= i < xs.len() ==> call_requires(f, (#[trigger] xs@[i],)),
    ensures
        r@.len() == xs@.len(),
        forall|i: int| 0 <= i < xs.len() ==> call_ensures(f, (xs@[i],), #[trigger] r@[i]),
{
    let mut r: Vec<i32> = Vec::new();
    let mut i: usize = 0;
    while i < xs.len()
        invariant
            i <= xs.len(),
            forall|j: int| 0 <= j < xs.len() ==> call_requires(f, (#[trigger] xs@[j],)),
            r@.len() == i,
            forall|j: int| 0 <= j < i ==> call_ensures(f, (xs@[j],), #[trigger] r@[j]),
        decreases xs.len() - i,
    {
        r.push(f(xs[i]));
        i = i + 1;
    }
    r
}

/// The squares of the elements strictly above `threshold`, in input order.
pub open spec fn kept_squares(nums: Seq<i32>, threshold: i32) -> Seq<i32> {
    nums.filter(|x: i32| x > threshold).map_values(|x: i32| (x * x) as i32)
}

/// Whether every kept element's square fits in an `i32`.
pub open spec fn squares_fit(nums: Seq<i32>, threshold: i32) -> bool {
    forall|i: int| 0 <= i < nums.len() && nums[i] > threshold ==> #[trigger] nums[i] * nums[i] <= i32::MAX
}

/// Whether `s` is in non-increasing order.
pub open spec fn descending(s: Seq<i32>) -> bool {
    forall|i: int, j: int| 0 <= i <= j < s.len() ==> s[i] >= s[j]
}

/// `v` in non-increasing order (insertion sort).
pub fn sort_descending(v: Vec<i32>) -> (r: Vec<i32>)
    ensures
        descending(r@),
        r@.to_multiset() == v@.to_multiset(),
{
    let mut r: Vec<i32> = Vec::new();
    let mut k: usize = 0;
    proof {
        broadcast use vstd::seq_lib::group_to_multiset_ensures;
        assert(v@.take(0) =~= Seq::<i32>::empty());
    }
    while k < v.len()
        invariant
            k <= v.len(),
            descending(r@),
            r@.to_multiset() == v@.take(k as int).to_multiset(),
        decreases v.len() - k,
    {
        let x = v[k];
        let mut pos: usize = 0;
        while pos < r.len() && r[pos] >= x
            invariant
                pos <= r.len(),
                forall|i: int| 0 <= i < pos ==> r@[i] >= x,
            decreases r.len() - pos,
        {
            pos = pos + 1;
        }
        let ghost before = r@;
        r.insert(pos, x);
        proof {
            broadcast use vstd::seq_lib::group_to_multiset_ensures;
            assert(r@ =~= before.insert(pos as int, x));
            before.insert_ensures(pos as int, x);
            assert(r@ =~= before.take(pos as int).push(x) + before.skip(pos as int));
            vstd::seq_lib::lemma_multiset_commutative(before.take(pos as int).push(x), before.skip(pos as int));
            vstd::seq_lib::lemma_multiset_commutative(before.take(pos as int), before.skip(pos as int));
            assert(before =~= before.take(pos as int) + before.skip(pos as int));
            assert(v@.take(k + 1) =~= v@.take(k as int).push(x));
            assert forall|i: int, j: int| 0 <= i <= j < r@.len() implies r@[i] >= r@[j] by {
                if pos < before.len() {
                    assert(x > before[pos as int]);
                }
            }
        }
        k = k + 1;
    }
    assert(v@.take(v.len() as int) =~= v@);
    r
}

/// Keeps the elements strictly greater than `threshold`, squares them, and
/// returns them largest first.
pub fn top_squares(nums: &[i32], threshold: i32) -> (r: Vec<i32>)
    requires
        squares_fit(nums@, threshold),
    ensures
        descending(r@),
        r@.to_multiset() == kept_squares(nums@, threshold).to_multiset(),
{
    let mut kept: Vec<i32> = Vec::new();
    let mut i: usize = 0;
    proof {
        assert(nums@.take(0).filter(|x: i32| x > threshold) =~= Seq::<i32>::empty());
    }
    while i < nums.len()
        invariant
            i <= nums.len(),
            squares_fit(nums@, threshold),
            kept@ == kept_squares(nums@.take(i as int), threshold),
        decreases nums.len() - i,
    {
        let x = nums[i];
        proof {
            assert(nums@.take(i + 1).drop_last() =~= nums@.take(i as int));
            reveal_with_fuel(Seq::filter, 1);
        }
        if x > threshold {
            proof {
                assert(nums@[i as int] * nums@[i as int] <= i32::MAX);
                assert(0 <= x * x) by (nonlinear_arith);
            }
            kept.push(x * x);
        }
        i = i + 1;
        assert(kept@ =~= kept_squares(nums@.take(i as int), threshold));
    }
    assert(nums@.take(nums.len() as int) =~= nums@);
    sort_descending(kept)
}

/// The closure `move |x| x >= min && x <= max`, returned by [`make_validator`].
pub struct Validator {
    pub min: i32,
    pub max: i32,
}

impl Validator {
    pub fn call(&self, x: i32) -> (b: bool)
        ensures
            b == (self.min <= x && x <= self.max),
    {
        x >= self.min && x <= self.max
    }
}

/// A closure reporting whether its argument lies in `min..=max`.
pub fn make_validator(min: i32, max: i32) -> (f: Validator)
    ensures
        f.min == min,
        f.max == max,
{
    Validator { min, max }
}

} // verus!
