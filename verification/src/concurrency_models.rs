//! Shared state versus message passing: the work each thread does, the way
//! partial results combine, and the key-value store that a lock or an actor
//! protects.
use vstd::prelude::*;

pub mod kv;

verus! {

/// How many threads split the range `1..=n` between them.
pub const THREADS: u64 = 8;

/// How many workers drain a job queue.
pub const WORKERS: usize = 4;

/// `0 + 1 + ... + k`.
pub open spec fn triangle(k: int) -> int {
    k * (k + 1) / 2
}

/// First number of chunk `i` when `1..=n` is cut into `THREADS` pieces.
pub open spec fn chunk_lo(n: int, i: int) -> int {
    i * (n / 8) + 1
}

/// Last number of chunk `i`; the final chunk takes whatever is left.
pub open spec fn chunk_hi(n: int, i: int) -> int {
    if i == 7 {
        n
    } else {
        (i + 1) * (n / 8)
    }
}

/// The inclusive bounds of chunk `i` of `1..=n`.
pub fn chunk_bounds(n: u64, i: u64) -> (r: (u64, u64))
    requires
        i < THREADS,
    ensures
        r.0 == chunk_lo(n as int, i as int),
        r.1 == chunk_hi(n as int, i as int),
{
    let per = n / THREADS;
    proof {
        assert(i * per + per <= n) by (nonlinear_arith)
            requires
                i < 8,
                per == n / 8;
        assert((i + 1) * per == i * per + per) by (nonlinear_arith);
    }
    let lo = i * per + 1;
    let hi = if i == THREADS - 1 {
        n
    } else {
        (i + 1) * per
    };
    (lo, hi)
}

/// The sum `lo + (lo + 1) + ... + hi`, by Gauss's formula.
pub fn chunk_sum(lo: u64, hi: u64) -> (r: u64)
    requires
        1 <= lo <= hi,
        (lo + hi) * (hi - lo + 1) <= u64::MAX,
    ensures
        r == triangle(hi as int) - triangle(lo - 1),
{
    proof {
        lemma_gauss(lo as int, hi as int);
        assert(lo + hi <= (lo + hi) * (hi - lo + 1)) by (nonlinear_arith)
            requires
                1 <= lo <= hi;
    }
    (lo + hi) * (hi - lo + 1) / 2
}

proof fn lemma_gauss(lo: int, hi: int)
    requires
        1 <= lo <= hi,
    ensures
        (lo + hi) * (hi - lo + 1) / 2 == triangle(hi) - triangle(lo - 1),
{
    let a = hi * (hi + 1);
    let b = (lo - 1) * lo;
    assert((lo + hi) * (hi - lo + 1) == a - b) by (nonlinear_arith)
        requires
            a == hi * (hi + 1),
            b == (lo - 1) * lo;
    lemma_even_product(hi);
    lemma_even_product(lo - 1);
    assert(a % 2 == 0 && b % 2 == 0);
    assert((a - b) / 2 == a / 2 - b / 2) by {
        let qa = a / 2;
        let qb = b / 2;
        assert(a == 2 * qa);
        assert(b == 2 * qb);
        assert(a - b == 2 * (qa - qb));
    }
}

proof fn lemma_even_product(k: int)
    ensures
        (k * (k + 1)) % 2 == 0,
{
    let q = k / 2;
    let r = k % 2;
    assert(k == 2 * q + r);
    if r == 0 {
        assert(k * (k + 1) == 2 * (q * (k + 1))) by (nonlinear_arith)
            requires
                k == 2 * q;
    } else {
        assert(k * (k + 1) == 2 * (k * (q + 1))) by (nonlinear_arith)
            requires
                k == 2 * q + 1;
    }
}

/// Every chunk's Gauss product fits in a `u64`.
pub open spec fn chunks_fit(n: int) -> bool {
    forall|i: int|
        0 <= i < 8 ==> (#[trigger] chunk_lo(n, i) + chunk_hi(n, i)) * (chunk_hi(n, i) - chunk_lo(n, i)
            + 1) <= u64::MAX
}

/// The partial sum worker `i` contributes: the sum of its chunk of `1..=n`,
/// zero where the chunk is empty (when `n` is smaller than `THREADS`).
pub fn chunk_partial(n: u64, i: u64) -> (r: u64)
    requires
        i < THREADS,
        chunks_fit(n as int),
    ensures
        r == triangle(chunk_hi(n as int, i as int)) - triangle(chunk_lo(n as int, i as int) - 1),
{
    let (lo, hi) = chunk_bounds(n, i);
    proof {
        let per = n / 8;
        assert(lo <= hi + 1) by (nonlinear_arith)
            requires
                i < 8,
                lo == i * per + 1,
                hi == (if i == 7 { n as int } else { (i + 1) * per }),
                n >= 8 * per;
        assert(chunk_lo(n as int, i as int) + chunk_hi(n as int, i as int) == lo + hi);
    }
    if hi < lo {
        return 0;
    }
    chunk_sum(lo, hi)
}

/// Adds the chunk partials of `1..=n` one worker after another: the total
/// that both the locked accumulator and the channel fold arrive at.
pub fn sum_by_chunks(n: u64) -> (total: u64)
    requires
        chunks_fit(n as int),
        triangle(n as int) <= u64::MAX,
    ensures
        total == triangle(n as int),
{
    let mut total: u64 = 0;
    let mut i: u64 = 0;
    while i < THREADS
        invariant
            i <= 8,
            chunks_fit(n as int),
            triangle(n as int) <= u64::MAX,
            total == triangle(if i == 0 { 0 } else { chunk_hi(n as int, i - 1) }),
        decreases 8 - i,
    {
        let part = chunk_partial(n, i);
        proof {
            let per = n / 8;
            if i > 0 {
                assert(chunk_lo(n as int, i as int) - 1 == chunk_hi(n as int, i - 1));
            }
            assert(0 <= chunk_hi(n as int, i as int) <= n) by (nonlinear_arith)
                requires
                    per == n / 8,
                    i < 8,
                    chunk_hi(n as int, i as int) == (if i == 7 { n as int } else { (i + 1) * per });
            lemma_triangle_monotone(chunk_hi(n as int, i as int), n as int);
            if i == 0 {
                assert(0 * (n as int / 8) == 0) by (nonlinear_arith);
                assert(chunk_lo(n as int, 0) == 1);
                assert(triangle(0) == 0);
            }
        }
        total = total + part;
        i = i + 1;
    }
    total
}

proof fn lemma_triangle_monotone(a: int, b: int)
    requires
        0 <= a <= b,
    ensures
        triangle(a) <= triangle(b),
{
    assert(a * (a + 1) <= b * (b + 1)) by (nonlinear_arith)
        requires
            0 <= a <= b;
}

/// Both designs arrive at Gauss's total: the chunks of `1..=n` follow one
/// another without gap or overlap, from 1 up to `n`, so their partials add up
/// to `n * (n + 1) / 2` for every `n`.
pub proof fn law_chunks_cover_range(n: int)
    requires
        n >= 0,
    ensures
        chunk_lo(n, 0) == 1,
        chunk_hi(n, 7) == n,
        forall|i: int| 1 <= i < 8 ==> #[trigger] chunk_lo(n, i) == chunk_hi(n, i - 1) + 1,
        forall|i: int| 0 <= i < 8 ==> #[trigger] chunk_lo(n, i) <= chunk_hi(n, i) + 1,
{
    assert forall|i: int| 0 <= i < 8 implies #[trigger] chunk_lo(n, i) <= chunk_hi(n, i) + 1 by {
        let per = n / 8;
        assert(i * per <= (if i == 7 { n } else { (i + 1) * per })) by (nonlinear_arith)
            requires
                0 <= i < 8,
                per == n / 8,
                n >= 0;
    }
}

/// The sum of a sequence of `u64` values.
pub open spec fn sum_u64(s: Seq<u64>) -> int
    decreases s.len(),
{
    if s.len() == 0 {
        0
    } else {
        sum_u64(s.drop_last()) + s.last()
    }
}

proof fn lemma_sum_u64_prefix(s: Seq<u64>, k: int)
    requires
        0 <= k <= s.len(),
    ensures
        sum_u64(s.take(k)) <= sum_u64(s),
    decreases s.len() - k,
{
    if k < s.len() {
        lemma_sum_u64_prefix(s, k + 1);
        assert(s.take(k + 1).drop_last() =~= s.take(k));
    } else {
        assert(s.take(k) =~= s);
    }
}

/// Folds received values into their total.
pub fn sum_values(values: &[u64]) -> (total: u64)
    requires
        sum_u64(values@) <= u64::MAX,
    ensures
        total == sum_u64(values@),
{
    let mut total: u64 = 0;
    let mut k: usize = 0;
    assert(values@.take(0) =~= Seq::<u64>::empty());
    while k < values.len()
        invariant
            k <= values.len(),
            sum_u64(values@) <= u64::MAX,
            total == sum_u64(values@.take(k as int)),
        decreases values.len() - k,
    {
        assert(values@.take(k + 1).drop_last() =~= values@.take(k as int));
        proof {
            lemma_sum_u64_prefix(values@, k + 1);
        }
        total = total + values[k];
        k = k + 1;
    }
    assert(values@.take(values.len() as int) =~= values@);
    total
}

/// The sum of a payload's bytes.
pub open spec fn byte_total(s: Seq<u8>) -> int
    decreases s.len(),
{
    if s.len() == 0 {
        0
    } else {
        byte_total(s.drop_last()) + s.last()
    }
}

proof fn lemma_byte_total_bound(s: Seq<u8>)
    ensures
        0 <= byte_total(s) <= 255 * s.len(),
    decreases s.len(),
{
    if s.len() > 0 {
        lemma_byte_total_bound(s.drop_last());
    }
}

/// What a worker computes for one owned job: the sum of its bytes.
pub fn byte_sum(payload: &[u8]) -> (r: u64)
    requires
        payload.len() <= 0xffff_ffff_ffff,
    ensures
        r == byte_total(payload@),
{
    let mut total: u64 = 0;
    let mut k: usize = 0;
    assert(payload@.take(0) =~= Seq::<u8>::empty());
    while k < payload.len()
        invariant
            k <= payload.len(),
            payload.len() <= 0xffff_ffff_ffff,
            total == byte_total(payload@.take(k as int)),
        decreases payload.len() - k,
    {
        assert(payload@.take(k + 1).drop_last() =~= payload@.take(k as int));
        proof {
            lemma_byte_total_bound(payload@.take(k as int));
        }
        total = total + payload[k] as u64;
        k = k + 1;
    }
    assert(payload@.take(payload.len() as int) =~= payload@);
    total
}

/// Pipeline stage two: triple the value.
pub fn triple_stage(x: i64) -> (r: i64)
    requires
        i64::MIN <= 3 * x <= i64::MAX,
    ensures
        r == 3 * x,
{
    x * 3
}

/// Pipeline stage three: whether the value passes on (it is even).
pub fn keep_stage(x: i64) -> (keep: bool)
    ensures
        keep == (x % 2 == 0),
{
    x % 2 == 0
}

/// What comes out of the produce, triple and keep-even pipeline, in order.
pub open spec fn pipeline_output(input: Seq<i64>) -> Seq<i64>
    decreases input.len(),
{
    if input.len() == 0 {
        seq![]
    } else {
        let prev = pipeline_output(input.drop_last());
        let y = 3 * input.last();
        if y % 2 == 0 {
            prev.push(y as i64)
        } else {
            prev
        }
    }
}

/// Runs the three pipeline stages over `input`, one value after another.
pub fn pipeline(input: &[i64]) -> (out: Vec<i64>)
    requires
        forall|i: int| 0 <= i < input.len() ==> i64::MIN <= 3 * #[trigger] input@[i] <= i64::MAX,
    ensures
        out@ == pipeline_output(input@),
{
    let mut out: Vec<i64> = Vec::new();
    let mut k: usize = 0;
    while k < input.len()
        invariant
            k <= input.len(),
            forall|i: int| 0 <= i < input.len() ==> i64::MIN <= 3 * #[trigger] input@[i] <= i64::MAX,
            out@ == pipeline_output(input@.take(k as int)),
        decreases input.len() - k,
    {
        assert(input@.take(k + 1).drop_last() =~= input@.take(k as int));
        let y = triple_stage(input[k]);
        if keep_stage(y) {
            out.push(y);
        }
        k = k + 1;
    }
    assert(input@.take(input.len() as int) =~= input@);
    out
}

/// The deterministic compute a worker performs on a task.
pub open spec fn work_spec(task: u64) -> u64 {
    (task.wrapping_mul(2654435761) % 1_000_000) as u64
}

/// The work done for one task.
pub fn work(task: u64) -> (r: u64)
    ensures
        r == work_spec(task),
        r < 1_000_000,
{
    task.wrapping_mul(2654435761) % 1_000_000
}

/// The work results of `tasks`, in order.
pub open spec fn work_results(tasks: Seq<u64>) -> Seq<u64> {
    tasks.map_values(|t: u64| work_spec(t))
}

/// The total of the work over all tasks, however the tasks were shared out.
pub fn total_work(tasks: &[u64]) -> (total: u64)
    requires
        sum_u64(work_results(tasks@)) <= u64::MAX,
    ensures
        total == sum_u64(work_results(tasks@)),
{
    let mut results: Vec<u64> = Vec::new();
    let mut k: usize = 0;
    while k < tasks.len()
        invariant
            k <= tasks.len(),
            results@ == work_results(tasks@.take(k as int)),
        decreases tasks.len() - k,
    {
        results.push(work(tasks[k]));
        k = k + 1;
        assert(results@ =~= work_results(tasks@.take(k as int)));
    }
    assert(tasks@.take(tasks.len() as int) =~= tasks@);
    sum_values(results.as_slice())
}

} // verus!
