//! What bounded generic helpers compute, on integer items: the least item,
//! runs collapsed, a stack, the larger of a pair, sums, extremes, counts and
//! joined renderings.
use vstd::prelude::*;
use std::collections::HashMap;
use crate::text::{push_str, format_i64, signed_decimal, join};

verus! {

/// Whether `m` is an element of `s` that no element is below.
pub open spec fn is_min_of(m: i64, s: Seq<i64>) -> bool {
    s.contains(m) && forall|i: int| 0 <= i < s.len() ==> m <= #[trigger] s[i]
}

/// Whether `m` is an element of `s` that no element is above.
pub open spec fn is_max_of(m: i64, s: Seq<i64>) -> bool {
    s.contains(m) && forall|i: int| 0 <= i < s.len() ==> #[trigger] s[i] <= m
}

/// The least item of a non-empty slice.
pub fn min_item(items: &[i64]) -> (m: i64)
    requires
        items.len() > 0,
    ensures
        is_min_of(m, items@),
{
    let mut m = items[0];
    let mut i: usize = 1;
    assert(items@.take(1)[0] == m);
    while i < items.len()
        invariant
            1 <= i <= items.len(),
            items@.take(i as int).contains(m),
            forall|k: int| 0 <= k < i ==> m <= #[trigger] items@[k],
        decreases items.len() - i,
    {
        if items[i] < m {
            m = items[i];
            assert(items@.take(i + 1)[i as int] == m);
        } else {
            proof {
                let k = choose|k: int| 0 <= k < i && items@.take(i as int)[k] == m;
                assert(items@.take(i + 1)[k] == m);
            }
        }
        i = i + 1;
    }
    assert(items@.take(items.len() as int) =~= items@);
    m
}

/// `s` with every run of equal neighbours collapsed to one element.
pub open spec fn collapse_runs(s: Seq<i64>) -> Seq<i64>
    decreases s.len(),
{
    if s.len() == 0 {
        seq![]
    } else {
        let prev = collapse_runs(s.drop_last());
        if prev.len() > 0 && prev.last() == s.last() {
            prev
        } else {
            prev.push(s.last())
        }
    }
}

/// Collapses runs of equal neighbours.
pub fn dedup_adjacent(items: &[i64]) -> (r: Vec<i64>)
    ensures
        r@ == collapse_runs(items@),
{
    let mut r: Vec<i64> = Vec::new();
    let mut i: usize = 0;
    while i < items.len()
        invariant
            i <= items.len(),
            r@ == collapse_runs(items@.take(i as int)),
        decreases items.len() - i,
    {
        assert(items@.take(i + 1).drop_last() =~= items@.take(i as int));
        let x = items[i];
        if r.len() == 0 || r[r.len() - 1] != x {
            r.push(x);
        }
        i = i + 1;
    }
    assert(items@.take(items.len() as int) =~= items@);
    r
}

/// The decimal renderings of `s`.
pub open spec fn decimals(s: Seq<i64>) -> Seq<Seq<char>> {
    s.map_values(|x: i64| signed_decimal(x as int))
}

/// How `{:?}` renders a list of integers: `[a, b, c]`.
pub open spec fn list_text(s: Seq<i64>) -> Seq<char> {
    "["@ + join(decimals(s), ", "@) + "]"@
}

/// The items joined by `sep`.
pub fn join_values(items: &[i64], sep: &str) -> (s: String)
    ensures
        s@ == join(decimals(items@), sep@),
{
    let ghost views = decimals(items@);
    let mut s = String::new();
    let mut k: usize = 0;
    while k < items.len()
        invariant
            views == decimals(items@),
            k <= items.len(),
            s@ == join(views.take(k as int), sep@),
        decreases items.len() - k,
    {
        assert(views.take(k + 1).drop_last() =~= views.take(k as int));
        if k > 0 {
            push_str(&mut s, sep);
        }
        let d = format_i64(items[k]);
        push_str(&mut s, d.as_str());
        proof {
            if k == 0 {
                assert(s@ =~= views.take(1)[0]);
            } else {
                assert(s@ =~= join(views.take(k as int), sep@) + sep@ + views.take(k + 1).last());
            }
        }
        k = k + 1;
    }
    assert(views.take(items.len() as int) =~= views);
    s
}

/// Renders a list of integers as `{:?}` does.
pub fn describe_list(items: &[i64]) -> (s: String)
    ensures
        s@ == list_text(items@),
{
    let mut s = "[".to_owned();
    let body = join_values(items, ", ");
    push_str(&mut s, body.as_str());
    push_str(&mut s, "]");
    s
}

/// Collapses runs of equal neighbours and renders the result as a list.
pub fn dedup_describe(items: &[i64]) -> (s: String)
    ensures
        s@ == list_text(collapse_runs(items@)),
{
    let r = dedup_adjacent(items);
    describe_list(r.as_slice())
}

/// A last-in, first-out stack.
pub struct Stack<T> {
    items: Vec<T>,
}

impl<T> Stack<T> {
    /// The items, bottom first.
    pub closed spec fn view(&self) -> Seq<T> {
        self.items@
    }

    pub fn new() -> (s: Self)
        ensures
            s@ == Seq::<T>::empty(),
    {
        Stack { items: Vec::new() }
    }

    pub fn push(&mut self, value: T)
        ensures
            final(self)@ == old(self)@.push(value),
    {
        self.items.push(value);
    }

    pub fn len(&self) -> (n: usize)
        ensures
            n == self@.len(),
    {
        self.items.len()
    }
}

impl Stack<i64> {
    /// The items rendered as a list, bottom first.
    pub fn dump(&self) -> (s: String)
        ensures
            s@ == list_text(self@),
    {
        describe_list(self.items.as_slice())
    }
}

/// Two values of one type.
pub struct Pair<T> {
    pub first: T,
    pub second: T,
}

impl<T> Pair<T> {
    pub fn new(first: T, second: T) -> (p: Self)
        ensures
            p.first == first,
            p.second == second,
    {
        Pair { first, second }
    }
}

/// The sentence naming the larger of a pair: the first value when it is
/// strictly larger, the second otherwise.
pub open spec fn largest_text(first: i64, second: i64) -> Seq<char> {
    "the largest is "@ + signed_decimal(
        if first > second {
            first as int
        } else {
            second as int
        },
    )
}

impl Pair<i64> {
    /// Names the larger value.
    pub fn cmp_display(&self) -> (s: String)
        ensures
            s@ == largest_text(self.first, self.second),
    {
        let largest = if self.first > self.second {
            self.first
        } else {
            self.second
        };
        let mut s = "the largest is ".to_owned();
        let d = format_i64(largest);
        push_str(&mut s, d.as_str());
        s
    }
}

/// The items joined by `", "`.
pub fn join_display(items: &[i64]) -> (s: String)
    ensures
        s@ == join(decimals(items@), ", "@),
{
    join_values(items, ", ")
}

/// The items joined by `sep`.
pub fn join_with(items: &[i64], sep: &str) -> (s: String)
    ensures
        s@ == join(decimals(items@), sep@),
{
    join_values(items, sep)
}

/// Sums a collection read through a shared borrow.
pub fn sum_borrowed(collection: &[i32]) -> (sum: i32)
    requires
        crate::cell_refcell::running_sums_fit_i32(collection@),
    ensures
        sum == crate::cell_refcell::sum_i32(collection@),
{
    crate::cell_refcell::sum_slice(collection)
}

/// The least and greatest items, or nothing for no items.
pub fn min_max(items: &[i64]) -> (r: Option<(i64, i64)>)
    ensures
        items.len() == 0 ==> r is None,
        items.len() > 0 ==> (r matches Some((lo, hi)) && is_min_of(lo, items@) && is_max_of(
            hi,
            items@,
        )),
{
    if items.len() == 0 {
        return None;
    }
    let lo = min_item(items);
    let mut hi = items[0];
    let mut i: usize = 1;
    assert(items@.take(1)[0] == hi);
    while i < items.len()
        invariant
            1 <= i <= items.len(),
            items@.take(i as int).contains(hi),
            forall|k: int| 0 <= k < i ==> #[trigger] items@[k] <= hi,
        decreases items.len() - i,
    {
        if items[i] > hi {
            hi = items[i];
            assert(items@.take(i + 1)[i as int] == hi);
        } else {
            proof {
                let k = choose|k: int| 0 <= k < i && items@.take(i as int)[k] == hi;
                assert(items@.take(i + 1)[k] == hi);
            }
        }
        i = i + 1;
    }
    assert(items@.take(items.len() as int) =~= items@);
    Some((lo, hi))
}

/// How many times `x` occurs in `s`.
pub open spec fn count_of(s: Seq<u32>, x: u32) -> nat
    decreases s.len(),
{
    if s.len() == 0 {
        0
    } else {
        count_of(s.drop_last(), x) + if s.last() == x {
            1nat
        } else {
            0nat
        }
    }
}

proof fn lemma_count_of_bound(s: Seq<u32>, x: u32)
    ensures
        count_of(s, x) <= s.len(),
    decreases s.len(),
{
    if s.len() > 0 {
        lemma_count_of_bound(s.drop_last(), x);
    }
}

/// How many times each item occurs.
pub fn counts(items: &[u32]) -> (m: HashMap<u32, usize>)
    ensures
        forall|x: u32| #[trigger] m@.contains_key(x) <==> count_of(items@, x) > 0,
        forall|x: u32| #[trigger] m@.contains_key(x) ==> m@[x] == count_of(items@, x),
{
    let mut m: HashMap<u32, usize> = HashMap::new();
    let mut i: usize = 0;
    while i < items.len()
        invariant
            i <= items.len(),
            forall|x: u32| #[trigger] m@.contains_key(x) <==> count_of(items@.take(i as int), x) > 0,
            forall|x: u32| #[trigger] m@.contains_key(x) ==> m@[x] == count_of(items@.take(i as int), x),
        decreases items.len() - i,
    {
        let x = items[i];
        let ghost prefix = items@.take(i as int);
        proof {
            assert(items@.take(i + 1).drop_last() =~= prefix);
            lemma_count_of_bound(prefix, x);
        }
        let c = match m.get(&x) {
            Some(c) => *c + 1,
            None => 1,
        };
        m.insert(x, c);
        i = i + 1;
    }
    assert(items@.take(items.len() as int) =~= items@);
    m
}

} // verus!
