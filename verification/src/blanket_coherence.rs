//! Blanket implementations and coherence: a method every type gets, an
//! extension over integer sequences, impls on foreign types for local
//! traits, and a newtype that makes a foreign type displayable.
use vstd::prelude::*;
use crate::text::{push_str, format_u64, decimal};
use crate::generic_bounds::list_text;

verus! {

/// A label every type gets from one blanket impl.
pub trait Named {
    fn type_label(&self) -> (l: &'static str)
        ensures
            l@ == "a value"@,
    ;
}

impl<T> Named for T {
    fn type_label(&self) -> (l: &'static str) {
        "a value"
    }
}

pub struct Widget;

/// The squares of `s`, added up.
pub open spec fn square_sum(s: Seq<u64>) -> int
    decreases s.len(),
{
    if s.len() == 0 {
        0
    } else {
        square_sum(s.drop_last()) + s.last() * s.last()
    }
}

/// Whether every running sum of squares fits in a `u64`.
pub open spec fn square_sums_fit(s: Seq<u64>) -> bool {
    forall|k: int| 0 <= k <= s.len() ==> #[trigger] square_sum(s.take(k)) <= u64::MAX
}

proof fn lemma_square_le_sum(s: Seq<u64>)
    requires
        s.len() > 0,
    ensures
        s.last() * s.last() <= square_sum(s),
        square_sum(s.drop_last()) <= square_sum(s),
    decreases s.len(),
{
    assert(0 <= square_sum(s.drop_last())) by {
        lemma_square_sum_nonneg(s.drop_last());
    }
    assert(0 <= s.last() * s.last()) by (nonlinear_arith);
}

proof fn lemma_square_sum_nonneg(s: Seq<u64>)
    ensures
        0 <= square_sum(s),
    decreases s.len(),
{
    if s.len() > 0 {
        lemma_square_sum_nonneg(s.drop_last());
        assert(0 <= s.last() * s.last()) by (nonlinear_arith);
    }
}

/// The sum of the squares of the values.
pub fn sum_of_squares(values: &[u64]) -> (total: u64)
    requires
        square_sums_fit(values@),
    ensures
        total == square_sum(values@),
{
    let mut total: u64 = 0;
    let mut k: usize = 0;
    assert(values@.take(0) =~= Seq::<u64>::empty());
    while k < values.len()
        invariant
            k <= values.len(),
            square_sums_fit(values@),
            total == square_sum(values@.take(k as int)),
        decreases values.len() - k,
    {
        let x = values[k];
        let ghost next = values@.take(k + 1);
        proof {
            assert(next.drop_last() =~= values@.take(k as int));
            assert(next.last() == x);
            assert(square_sum(next) <= u64::MAX);
            lemma_square_le_sum(next);
        }
        total = total + x * x;
        k = k + 1;
    }
    assert(values@.take(values.len() as int) =~= values@);
    total
}

/// A one-line summary.
pub trait Summary {
    spec fn summary_text(&self) -> Seq<char>;

    fn summary(&self) -> (s: String)
        ensures
            s@ == self.summary_text(),
    ;
}

impl Summary for Vec<i32> {
    open spec fn summary_text(&self) -> Seq<char> {
        "Vec of "@ + decimal(self@.len()) + " items"@
    }

    fn summary(&self) -> (s: String) {
        let mut s = "Vec of ".to_owned();
        let n = format_u64(self.len() as u64);
        push_str(&mut s, n.as_str());
        push_str(&mut s, " items");
        s
    }
}

/// What kind of value something is.
pub trait Kind {
    spec fn kind_text(&self) -> Seq<char>;

    fn kind(&self) -> (k: &'static str)
        ensures
            k@ == self.kind_text(),
    ;
}

impl Kind for i32 {
    open spec fn kind_text(&self) -> Seq<char> {
        "integer"@
    }

    fn kind(&self) -> (k: &'static str) {
        "integer"
    }
}

impl<'a> Kind for &'a str {
    open spec fn kind_text(&self) -> Seq<char> {
        "string"@
    }

    fn kind(&self) -> (k: &'static str) {
        "string"
    }
}

/// A value wrapped in a local type.
pub struct Wrapped<T>(pub T);

impl<T> Wrapped<T> {
    /// Wraps `value`.
    pub fn wrap(value: T) -> (w: Self)
        ensures
            w.0 == value,
    {
        Wrapped(value)
    }
}

/// A foreign list made displayable by wrapping it in a local type.
pub struct Wrapper(pub Vec<i32>);

impl Wrapper {
    /// `[a, b, c]`.
    pub fn render(&self) -> (s: String)
        ensures
            s@ == list_text(self.0@.map_values(|x: i32| x as i64)),
    {
        let mut wide: Vec<i64> = Vec::new();
        let mut k: usize = 0;
        while k < self.0.len()
            invariant
                k <= self.0@.len(),
                wide@ == self.0@.take(k as int).map_values(|x: i32| x as i64),
            decreases self.0@.len() - k,
        {
            wide.push(self.0[k] as i64);
            k = k + 1;
            assert(wide@ =~= self.0@.take(k as int).map_values(|x: i32| x as i64));
        }
        assert(self.0@.take(self.0@.len() as int) =~= self.0@);
        crate::generic_bounds::describe_list(wide.as_slice())
    }

    /// The wrapped list, so its methods stay at hand.
    pub fn inner(&self) -> (v: &Vec<i32>)
        ensures
            v@ == self.0@,
    {
        &self.0
    }
}

} // verus!
