//! What the iterator-adapter demos compute, as loops with exact results:
//! filters, maps, folds, zips, flattening, parsing, a Fibonacci generator,
//! a double-ended owning iterator and consecutive pairs.
use vstd::prelude::*;
use vstd::string::StringSliceAdditionalSpecFns;
use std::collections::{HashMap, VecDeque};
use crate::numparse::{ParseIntError, parse_i32, spec_parse_i32, IntErrorKind};
use crate::text::{push_str, format_i64, signed_decimal, join, join_strings, chars_of};

verus! {

/// The sum of the squares of the even elements of `s`.
pub open spec fn even_square_sum(s: Seq<i32>) -> int
    decreases s.len(),
{
    if s.len() == 0 {
        0
    } else {
        even_square_sum(s.drop_last()) + if s.last() % 2 == 0 {
            s.last() * s.last()
        } else {
            0
        }
    }
}

/// Whether every square and every running total fits in an `i32`.
pub open spec fn even_squares_fit(s: Seq<i32>) -> bool {
    &&& forall|i: int| 0 <= i < s.len() && s[i] % 2 == 0 ==> #[trigger] (s[i] * s[i]) <= i32::MAX
    &&& forall|k: int| 0 <= k <= s.len() ==> #[trigger] even_square_sum(s.take(k)) <= i32::MAX
}

/// Adds up the squares of the even numbers.
pub fn sum_of_even_squares(nums: &[i32]) -> (total: i32)
    requires
        even_squares_fit(nums@),
    ensures
        total == even_square_sum(nums@),
{
    let mut total: i32 = 0;
    let mut k: usize = 0;
    assert(nums@.take(0) =~= Seq::<i32>::empty());
    while k < nums.len()
        invariant
            k <= nums.len(),
            even_squares_fit(nums@),
            total == even_square_sum(nums@.take(k as int)),
            total >= 0,
        decreases nums.len() - k,
    {
        assert(nums@.take(k + 1).drop_last() =~= nums@.take(k as int));
        let x = nums[k];
        if x % 2 == 0 {
            assert(nums@[k as int] * nums@[k as int] <= i32::MAX);
            assert(even_square_sum(nums@.take(k + 1)) <= i32::MAX);
            assert(0 <= x * x) by (nonlinear_arith);
            total = total + x * x;
        }
        k = k + 1;
    }
    assert(nums@.take(nums.len() as int) =~= nums@);
    total
}

/// How many elements of `s` are longer than three bytes.
pub open spec fn long_count(s: Seq<String>) -> nat
    decreases s.len(),
{
    if s.len() == 0 {
        0
    } else {
        long_count(s.drop_last()) + if vstd::utf8::encode_utf8(s.last()@).len() as usize > 3 {
            1nat
        } else {
            0nat
        }
    }
}

/// Counts the words longer than three bytes.
pub fn count_long(words: &[String]) -> (n: usize)
    ensures
        n == long_count(words@),
{
    let mut n: usize = 0;
    let mut k: usize = 0;
    while k < words.len()
        invariant
            k <= words.len(),
            n == long_count(words@.take(k as int)),
            n <= k,
        decreases words.len() - k,
    {
        assert(words@.take(k + 1).drop_last() =~= words@.take(k as int));
        let w = words[k].as_str();
        if w.len() > 3 {
            n = n + 1;
        }
        k = k + 1;
    }
    assert(words@.take(words.len() as int) =~= words@);
    n
}

/// Doubles every number where it stands.
pub fn double_in_place(nums: &mut Vec<i32>)
    requires
        forall|i: int| 0 <= i < old(nums)@.len() ==> i32::MIN <= 2 * #[trigger] old(nums)@[i] <= i32::MAX,
    ensures
        final(nums)@.len() == old(nums)@.len(),
        forall|i: int| 0 <= i < old(nums)@.len() ==> #[trigger] final(nums)@[i] == 2 * old(nums)@[i],
{
    let mut k: usize = 0;
    while k < nums.len()
        invariant
            k <= nums@.len(),
            nums@.len() == old(nums)@.len(),
            forall|i: int| 0 <= i < old(nums)@.len() ==> i32::MIN <= 2 * #[trigger] old(nums)@[i] <= i32::MAX,
            forall|i: int| 0 <= i < k ==> #[trigger] nums@[i] == 2 * old(nums)@[i],
            forall|i: int| k <= i < nums@.len() ==> #[trigger] nums@[i] == old(nums)@[i],
        decreases nums@.len() - k,
    {
        let v = nums[k] * 2;
        nums.set(k, v);
        k = k + 1;
    }
}

/// The words, consumed, joined by `", "`.
pub fn join_owned(words: Vec<String>) -> (s: String)
    ensures
        s@ == join(words@.map_values(|w: String| w@), ", "@),
{
    join_strings(words.as_slice(), ", ")
}

/// The positions of the even numbers, in order.
pub fn indices_of_evens(nums: &[i32]) -> (r: Vec<usize>)
    ensures
        forall|j: int| 0 <= j < r@.len() ==> #[trigger] r@[j] < nums@.len() && nums@[r@[j] as int] % 2 == 0,
        forall|j: int, l: int| 0 <= j < l < r@.len() ==> r@[j] < r@[l],
        forall|i: int| 0 <= i < nums@.len() && nums@[i] % 2 == 0 ==> r@.contains(i as usize),
{
    let mut r: Vec<usize> = Vec::new();
    let mut k: usize = 0;
    while k < nums.len()
        invariant
            k <= nums.len(),
            forall|j: int| 0 <= j < r@.len() ==> #[trigger] r@[j] < k && nums@[r@[j] as int] % 2 == 0,
            forall|j: int, l: int| 0 <= j < l < r@.len() ==> r@[j] < r@[l],
            forall|i: int| 0 <= i < k && nums@[i] % 2 == 0 ==> r@.contains(i as usize),
        decreases nums.len() - k,
    {
        let ghost old_r = r@;
        if nums[k] % 2 == 0 {
            r.push(k);
        }
        proof {
            assert forall|i: int| 0 <= i < k + 1 && nums@[i] % 2 == 0 implies r@.contains(i as usize) by {
                if i < k {
                    assert(old_r.contains(i as usize));
                    let j = choose|j: int| 0 <= j < old_r.len() && old_r[j] == i as usize;
                    assert(r@[j] == i as usize);
                } else {
                    assert(r@[r@.len() - 1] == k);
                }
            }
        }
        k = k + 1;
    }
    r
}

/// `name=score` for each name paired with the score at the same position;
/// the longer list's extra elements are left out.
pub fn label_scores(names: &[&str], scores: &[i32]) -> (r: Vec<String>)
    ensures
        r@.len() == if names@.len() <= scores@.len() {
            names@.len()
        } else {
            scores@.len()
        },
        forall|i: int| 0 <= i < r@.len() ==> #[trigger] r@[i]@ == names@[i]@ + "="@ + signed_decimal(
            scores@[i] as int,
        ),
{
    let n = if names.len() <= scores.len() {
        names.len()
    } else {
        scores.len()
    };
    let mut r: Vec<String> = Vec::new();
    let mut k: usize = 0;
    while k < n
        invariant
            k <= n,
            n <= names.len(),
            n <= scores.len(),
            r@.len() == k,
            forall|i: int| 0 <= i < k ==> #[trigger] r@[i]@ == names@[i]@ + "="@ + signed_decimal(
                scores@[i] as int,
            ),
        decreases n - k,
    {
        let mut line = names[k].to_owned();
        push_str(&mut line, "=");
        let d = format_i64(scores[k] as i64);
        push_str(&mut line, d.as_str());
        r.push(line);
        k = k + 1;
    }
    r
}

/// The characters of all words, one word after another.
pub open spec fn flatten(ws: Seq<&str>) -> Seq<char>
    decreases ws.len(),
{
    if ws.len() == 0 {
        seq![]
    } else {
        flatten(ws.drop_last()) + ws.last()@
    }
}

/// The characters of all words, in order.
pub fn all_chars(words: &[&str]) -> (r: Vec<char>)
    ensures
        r@ == flatten(words@),
{
    let mut r: Vec<char> = Vec::new();
    let mut k: usize = 0;
    while k < words.len()
        invariant
            k <= words.len(),
            r@ == flatten(words@.take(k as int)),
        decreases words.len() - k,
    {
        assert(words@.take(k + 1).drop_last() =~= words@.take(k as int));
        let cs = chars_of(words[k]);
        crate::text::append_chars(&mut r, cs.as_slice());
        k = k + 1;
    }
    assert(words@.take(words.len() as int) =~= words@);
    r
}

/// The values of the strings that parse as `i32`, in order.
pub open spec fn parsed_values(ss: Seq<&str>) -> Seq<int>
    decreases ss.len(),
{
    if ss.len() == 0 {
        seq![]
    } else {
        let prev = parsed_values(ss.drop_last());
        match spec_parse_i32(ss.last()@) {
            Ok(v) => prev.push(v),
            Err(_) => prev,
        }
    }
}

/// Keeps the strings that parse as `i32`, parsed.
pub fn parse_all(strs: &[&str]) -> (r: Vec<i32>)
    ensures
        r@.map_values(|x: i32| x as int) == parsed_values(strs@),
{
    let mut r: Vec<i32> = Vec::new();
    let mut k: usize = 0;
    while k < strs.len()
        invariant
            k <= strs.len(),
            r@.map_values(|x: i32| x as int) == parsed_values(strs@.take(k as int)),
        decreases strs.len() - k,
    {
        assert(strs@.take(k + 1).drop_last() =~= strs@.take(k as int));
        match parse_i32(strs[k]) {
            Ok(v) => {
                r.push(v);
            },
            Err(_) => {},
        }
        k = k + 1;
        assert(r@.map_values(|x: i32| x as int) =~= parsed_values(strs@.take(k as int)));
    }
    assert(strs@.take(strs.len() as int) =~= strs@);
    r
}

/// Every string parsed as `i32`, or the first failure.
pub fn parse_all_or_fail(strs: &[&str]) -> (r: Result<Vec<i32>, ParseIntError>)
    ensures
        r matches Ok(v) ==> v@.len() == strs@.len() && forall|i: int|
            0 <= i < strs@.len() ==> spec_parse_i32(#[trigger] strs@[i]@) == Ok::<int, IntErrorKind>(
                v@[i] as int,
            ),
        r matches Err(e) ==> exists|i: int|
            0 <= i < strs@.len() && spec_parse_i32(#[trigger] strs@[i]@) == Err::<int, IntErrorKind>(
                e.kind,
            ) && forall|j: int| 0 <= j < i ==> spec_parse_i32(#[trigger] strs@[j]@) is Ok,
{
    let mut r: Vec<i32> = Vec::new();
    let mut k: usize = 0;
    while k < strs.len()
        invariant
            k <= strs.len(),
            r@.len() == k,
            forall|i: int| 0 <= i < k ==> spec_parse_i32(#[trigger] strs@[i]@) == Ok::<int, IntErrorKind>(
                r@[i] as int,
            ),
        decreases strs.len() - k,
    {
        match parse_i32(strs[k]) {
            Ok(v) => {
                r.push(v);
            },
            Err(e) => {
                assert(spec_parse_i32(strs@[k as int]@) == Err::<int, IntErrorKind>(e.kind));
                return Err(e);
            },
        }
        k = k + 1;
    }
    Ok(r)
}

/// How often each character occurs, keyed by its code point.
pub fn char_freq(s: &str) -> (m: HashMap<u32, usize>)
    ensures
        forall|x: u32| #[trigger] m@.contains_key(x) <==> crate::generic_bounds::count_of(
            s@.map_values(|c: char| c as u32),
            x,
        ) > 0,
        forall|x: u32| #[trigger] m@.contains_key(x) ==> m@[x] == crate::generic_bounds::count_of(
            s@.map_values(|c: char| c as u32),
            x,
        ),
{
    let cs = chars_of(s);
    let mut codes: Vec<u32> = Vec::new();
    let mut k: usize = 0;
    while k < cs.len()
        invariant
            k <= cs.len(),
            cs@ == s@,
            codes@ == s@.take(k as int).map_values(|c: char| c as u32),
        decreases cs.len() - k,
    {
        codes.push(cs[k] as u32);
        k = k + 1;
        assert(codes@ =~= s@.take(k as int).map_values(|c: char| c as u32));
    }
    assert(s@.take(s@.len() as int) =~= s@);
    crate::generic_bounds::counts(codes.as_slice())
}

/// The squares of the first four positive multiples of three.
pub fn first_4_triple_squares() -> (v: Vec<u64>)
    ensures
        v@ == seq![9u64, 36, 81, 144],
{
    let mut v: Vec<u64> = Vec::new();
    let mut i: u64 = 1;
    while i <= 4
        invariant
            1 <= i <= 5,
            v@.len() == i - 1,
            forall|j: int| 0 <= j < v@.len() ==> #[trigger] v@[j] == 9 * (j + 1) * (j + 1),
        decreases 5 - i,
    {
        let m = 3 * i;
        assert(m * m == 9 * i * i && m * m <= 144) by (nonlinear_arith)
            requires
                m == 3 * i,
                1 <= i <= 4;
        v.push(m * m);
        i = i + 1;
    }
    assert(v@[0] == 9 && v@[1] == 36 && v@[2] == 81 && v@[3] == 144);
    assert(v@ =~= seq![9u64, 36, 81, 144]);
    v
}

/// The sum and the length of a vector it consumes.
pub fn sum_then_len(v: Vec<i32>) -> (r: (i32, usize))
    requires
        crate::cell_refcell::running_sums_fit_i32(v@),
    ensures
        r.0 == crate::cell_refcell::sum_i32(v@),
        r.1 == v@.len(),
{
    let total = crate::cell_refcell::sum_slice(v.as_slice());
    (total, v.len())
}

/// `0, 2, 4, 6, 8`.
pub fn doubled_0_to_5() -> (v: Vec<i32>)
    ensures
        v@ == seq![0i32, 2, 4, 6, 8],
{
    let mut v: Vec<i32> = Vec::new();
    let mut x: i32 = 0;
    while x < 5
        invariant
            0 <= x <= 5,
            v@.len() == x,
            forall|i: int| 0 <= i < x ==> #[trigger] v@[i] == 2 * i,
        decreases 5 - x,
    {
        v.push(x * 2);
        x = x + 1;
    }
    assert(v@ =~= seq![0i32, 2, 4, 6, 8]);
    v
}

/// The `n`-th Fibonacci number, counting from `fib(0) == 0`.
pub open spec fn fib(n: nat) -> nat
    decreases n,
{
    if n == 0 {
        0
    } else if n == 1 {
        1
    } else {
        fib((n - 2) as nat) + fib((n - 1) as nat)
    }
}

/// The Fibonacci numbers, one per call.
pub struct Fib {
    curr: u64,
    next: u64,
    index: Ghost<nat>,
}

impl Fib {
    /// How many numbers have been handed out.
    pub closed spec fn position(&self) -> nat {
        self.index@
    }

    /// The generator's internal consistency.
    pub closed spec fn wf(&self) -> bool {
        self.curr == fib(self.index@) && self.next == fib(self.index@ + 1)
    }

    pub fn new() -> (f: Self)
        ensures
            f.wf(),
            f.position() == 0,
    {
        Fib { curr: 0, next: 1, index: Ghost(0) }
    }

    /// The next Fibonacci number.
    pub fn next(&mut self) -> (r: Option<u64>)
        requires
            old(self).wf(),
            fib(old(self).position() + 2) <= u64::MAX,
        ensures
            final(self).wf(),
            final(self).position() == old(self).position() + 1,
            r == Some(fib(old(self).position()) as u64),
    {
        let curr = self.curr;
        self.curr = self.next;
        self.next = curr + self.next;
        self.index = Ghost(self.index@ + 1);
        Some(curr)
    }
}

proof fn lemma_fib_monotone(i: nat, j: nat)
    requires
        i <= j,
    ensures
        fib(i) <= fib(j),
    decreases j - i,
{
    if i < j {
        lemma_fib_monotone(i, (j - 1) as nat);
        if j >= 2 {
            assert(fib(j) == fib((j - 2) as nat) + fib((j - 1) as nat));
        }
    }
}

/// The first `k` Fibonacci numbers.
pub fn take_fib(k: usize) -> (v: Vec<u64>)
    requires
        fib((k + 1) as nat) <= u64::MAX,
    ensures
        v@.len() == k,
        forall|i: int| 0 <= i < k ==> #[trigger] v@[i] == fib(i as nat),
{
    let mut f = Fib::new();
    let mut v: Vec<u64> = Vec::new();
    while v.len() < k
        invariant
            f.wf(),
            f.position() == v@.len(),
            v@.len() <= k,
            fib((k + 1) as nat) <= u64::MAX,
            forall|i: int| 0 <= i < v@.len() ==> #[trigger] v@[i] == fib(i as nat),
        decreases k - v@.len(),
    {
        proof {
            lemma_fib_monotone(f.position() + 2, (k + 1) as nat);
        }
        match f.next() {
            Some(x) => {
                v.push(x);
            },
            None => {},
        }
    }
    v
}

/// A collection whose owning iterator can run from either end.
pub struct MyVec<T> {
    pub items: Vec<T>,
}

/// The owning iterator of a `MyVec`.
pub struct MyVecIntoIter<T> {
    inner: VecDeque<T>,
}

impl<T> MyVec<T> {
    /// Hands its items to an iterator, first to last.
    pub fn into_iter(self) -> (it: MyVecIntoIter<T>)
        ensures
            it@ == self.items@,
    {
        let mut inner: VecDeque<T> = VecDeque::new();
        let mut items = self.items;
        let ghost all = items@;
        let mut rev: Vec<T> = Vec::new();
        while items.len() > 0
            invariant
                all == items@ + rev@.reverse(),
            decreases items@.len(),
        {
            let ghost before = items@;
            let x = items.pop();
            match x {
                Some(x) => {
                    rev.push(x);
                },
                None => {},
            }
            assert(all =~= items@ + rev@.reverse());
        }
        while rev.len() > 0
            invariant
                all == inner@ + rev@.reverse(),
            decreases rev@.len(),
        {
            let x = rev.pop();
            match x {
                Some(x) => {
                    inner.push_back(x);
                },
                None => {},
            }
            assert(all =~= inner@ + rev@.reverse());
        }
        assert(all =~= inner@);
        MyVecIntoIter { inner }
    }
}

impl<T> MyVecIntoIter<T> {
    /// The items still to come, front first.
    pub closed spec fn view(&self) -> Seq<T> {
        self.inner@
    }

    /// The item at the front.
    pub fn next(&mut self) -> (r: Option<T>)
        ensures
            old(self)@.len() == 0 ==> r is None && final(self)@ == old(self)@,
            old(self)@.len() > 0 ==> r == Some(old(self)@[0]) && final(self)@ == old(self)@.drop_first(),
    {
        self.inner.pop_front()
    }

    /// The item at the back.
    pub fn next_back(&mut self) -> (r: Option<T>)
        ensures
            old(self)@.len() == 0 ==> r is None && final(self)@ == old(self)@,
            old(self)@.len() > 0 ==> r == Some(old(self)@.last()) && final(self)@ == old(self)@.drop_last(),
    {
        self.inner.pop_back()
    }

    /// The exact number of items left, as lower and upper bound.
    pub fn size_hint(&self) -> (r: (usize, Option<usize>))
        ensures
            r.0 == self@.len(),
            r.1 == Some(self@.len() as usize),
    {
        let n = self.inner.len();
        (n, Some(n))
    }
}

/// Each element paired with the one after it.
pub fn pairs(items: &[i64]) -> (r: Vec<(i64, i64)>)
    ensures
        r@.len() == if items@.len() == 0 {
            0
        } else {
            items@.len() - 1
        },
        forall|i: int| 0 <= i < r@.len() ==> #[trigger] r@[i] == (items@[i], items@[i + 1]),
{
    let mut r: Vec<(i64, i64)> = Vec::new();
    if items.len() == 0 {
        return r;
    }
    let mut k: usize = 1;
    while k < items.len()
        invariant
            1 <= k <= items.len(),
            r@.len() == k - 1,
            forall|i: int| 0 <= i < r@.len() ==> #[trigger] r@[i] == (items@[i], items@[i + 1]),
        decreases items.len() - k,
    {
        r.push((items[k - 1], items[k]));
        k = k + 1;
    }
    r
}

} // verus!
