//! Static and dynamic dispatch: the same behaviour reached through generics,
//! through trait objects, and through an enum with a `match`.
use vstd::prelude::*;
use crate::text::{uppercase_of, to_uppercase, push_str};

verus! {

/// Something that can say hello.
pub trait Greet {
    /// What `hello` returns.
    spec fn greeting(&self) -> Seq<char>;

    fn hello(&self) -> (s: String)
        ensures
            s@ == self.greeting(),
    ;
}

pub struct English;

pub struct French;

impl Greet for English {
    open spec fn greeting(&self) -> Seq<char> {
        "hello"@
    }

    fn hello(&self) -> (s: String) {
        "hello".to_owned()
    }
}

impl Greet for French {
    open spec fn greeting(&self) -> Seq<char> {
        "bonjour"@
    }

    fn hello(&self) -> (s: String) {
        "bonjour".to_owned()
    }
}

/// Greets through a generic bound: one compiled copy per greeter type.
pub fn greet_static<T: Greet>(g: &T) -> (s: String)
    ensures
        s@ == g.greeting(),
{
    g.hello()
}

/// Greets through a trait object: one function, the method looked up at run
/// time.
pub fn greet_dynamic(g: &dyn Greet) -> (s: String)
    ensures
        s@ == g.greeting(),
{
    g.hello()
}

/// The greeting, upper-cased.
pub fn loudest<T: Greet>(g: T) -> (s: String)
    ensures
        s@ == uppercase_of(g.greeting()),
{
    let h = g.hello();
    to_uppercase(h.as_str())
}

/// The greeter used when none is chosen.
pub fn default_greeter() -> (g: French)
    ensures
        g.greeting() == "bonjour"@,
{
    French
}

/// A greeter chosen at run time.
pub enum Greeter {
    English(English),
    French(French),
}

impl Greet for Greeter {
    open spec fn greeting(&self) -> Seq<char> {
        match self {
            Greeter::English(e) => e.greeting(),
            Greeter::French(f) => f.greeting(),
        }
    }

    fn hello(&self) -> (s: String) {
        match self {
            Greeter::English(e) => e.hello(),
            Greeter::French(f) => f.hello(),
        }
    }
}

/// The French greeter when `french` is set, the English one otherwise.
pub fn pick_greeter(french: bool) -> (g: Greeter)
    ensures
        g.greeting() == (if french {
            "bonjour"@
        } else {
            "hello"@
        }),
{
    if french {
        Greeter::French(French)
    } else {
        Greeter::English(English)
    }
}

/// A mixed crowd: English, French, English.
pub fn build_crowd() -> (crowd: Vec<Greeter>)
    ensures
        crowd@.len() == 3,
        crowd@[0].greeting() == "hello"@,
        crowd@[1].greeting() == "bonjour"@,
        crowd@[2].greeting() == "hello"@,
{
    let mut crowd: Vec<Greeter> = Vec::new();
    crowd.push(Greeter::English(English));
    crowd.push(Greeter::French(French));
    crowd.push(Greeter::English(English));
    crowd
}

/// Values that can produce their own double.
pub trait Doubler: Sized {
    /// Whether doubling `self` is possible.
    spec fn can_double(&self) -> bool;

    /// Whether `self` is the double of `other`.
    spec fn is_double_of(&self, other: &Self) -> bool;

    fn doubled(&self) -> (r: Self)
        requires
            self.can_double(),
        ensures
            r.is_double_of(self),
    ;
}

impl Doubler for i32 {
    open spec fn can_double(&self) -> bool {
        i32::MIN <= 2 * *self <= i32::MAX
    }

    open spec fn is_double_of(&self, other: &Self) -> bool {
        *self == 2 * *other
    }

    fn doubled(&self) -> (r: Self) {
        *self * 2
    }
}

impl Doubler for String {
    open spec fn can_double(&self) -> bool {
        true
    }

    open spec fn is_double_of(&self, other: &Self) -> bool {
        self@ == other@ + other@
    }

    fn doubled(&self) -> (r: Self) {
        let mut r = self.clone();
        push_str(&mut r, self.as_str());
        r
    }
}

/// Doubles any doubler.
pub fn twice<T: Doubler>(x: T) -> (r: T)
    requires
        x.can_double(),
    ensures
        r.is_double_of(&x),
{
    x.doubled()
}

/// Applies one closure: static dispatch on its unique type.
pub fn apply_static<F: Fn(i32) -> i32>(f: F, x: i32) -> (r: i32)
    requires
        call_requires(f, (x,)),
    ensures
        call_ensures(f, (x,), r),
{
    f(x)
}

/// One step of a number pipeline.
pub trait Transform {
    /// Whether applying the step to `x` stays in range.
    spec fn applies_to(&self, x: int) -> bool;

    /// What the step makes of `x`.
    spec fn result(&self, x: int) -> int;

    fn apply(&self, x: i32) -> (r: i32)
        requires
            self.applies_to(x as int),
        ensures
            r == self.result(x as int),
    ;
}

/// Adds a constant.
pub struct Add(pub i32);

/// Multiplies by a constant.
pub struct Mul(pub i32);

/// Negates.
pub struct Neg;

/// Applies `A`, then `B`.
pub struct Compose<A, B>(pub A, pub B);

impl Transform for Add {
    open spec fn applies_to(&self, x: int) -> bool {
        i32::MIN <= x + self.0 <= i32::MAX
    }

    open spec fn result(&self, x: int) -> int {
        x + self.0
    }

    fn apply(&self, x: i32) -> (r: i32) {
        x + self.0
    }
}

impl Transform for Mul {
    open spec fn applies_to(&self, x: int) -> bool {
        i32::MIN <= x * self.0 <= i32::MAX
    }

    open spec fn result(&self, x: int) -> int {
        x * self.0
    }

    fn apply(&self, x: i32) -> (r: i32) {
        x * self.0
    }
}

impl Transform for Neg {
    open spec fn applies_to(&self, x: int) -> bool {
        i32::MIN <= -x <= i32::MAX
    }

    open spec fn result(&self, x: int) -> int {
        -x
    }

    fn apply(&self, x: i32) -> (r: i32) {
        -x
    }
}

impl<A: Transform, B: Transform> Transform for Compose<A, B> {
    open spec fn applies_to(&self, x: int) -> bool {
        self.0.applies_to(x) && self.1.applies_to(self.0.result(x))
    }

    open spec fn result(&self, x: int) -> int {
        self.1.result(self.0.result(x))
    }

    fn apply(&self, x: i32) -> (r: i32) {
        let y = self.0.apply(x);
        self.1.apply(y)
    }
}

/// The pipeline add 3, multiply by 2, negate.
pub open spec fn pipeline_value(start: int) -> int {
    -((start + 3) * 2)
}

/// Whether every stage of the pipeline stays in range from `start`.
pub open spec fn pipeline_fits(start: int) -> bool {
    &&& i32::MIN <= start + 3 <= i32::MAX
    &&& i32::MIN <= (start + 3) * 2 <= i32::MAX
    &&& i32::MIN <= -((start + 3) * 2) <= i32::MAX
}

/// The pipeline as one composed type, fixed at compile time.
pub fn run_static(start: i32) -> (r: i32)
    requires
        pipeline_fits(start as int),
    ensures
        r == pipeline_value(start as int),
{
    Compose(Add(3), Compose(Mul(2), Neg)).apply(start)
}

/// The pipeline as a list of trait objects, folded over the start value.
pub fn run_dynamic(start: i32) -> (r: i32)
    requires
        pipeline_fits(start as int),
    ensures
        r == pipeline_value(start as int),
{
    let add = Add(3);
    let mul = Mul(2);
    let neg = Neg;
    let a: &dyn Transform = &add;
    let m: &dyn Transform = &mul;
    let n: &dyn Transform = &neg;
    let x = a.apply(start);
    let y = m.apply(x);
    n.apply(y)
}

/// A pipeline step from a closed set, dispatched by `match`.
#[derive(Debug, Clone, Copy, PartialEq, Eq, Structural)]
pub enum Op {
    Add(i32),
    Mul(i32),
    Neg,
}

/// What a step makes of `x`.
pub open spec fn op_result(op: Op, x: int) -> int {
    match op {
        Op::Add(n) => x + n,
        Op::Mul(n) => x * n,
        Op::Neg => -x,
    }
}

impl Op {
    pub fn apply(&self, x: i32) -> (r: i32)
        requires
            i32::MIN <= op_result(*self, x as int) <= i32::MAX,
        ensures
            r == op_result(*self, x as int),
    {
        match self {
            Op::Add(n) => x + *n,
            Op::Mul(n) => x * *n,
            Op::Neg => -x,
        }
    }
}

/// Folds `x` through the steps `ops`, first to last.
pub open spec fn fold_ops(ops: Seq<Op>, x: int) -> int
    decreases ops.len(),
{
    if ops.len() == 0 {
        x
    } else {
        op_result(ops.last(), fold_ops(ops.drop_last(), x))
    }
}

/// Whether folding `x` through every prefix of `ops` stays in range.
pub open spec fn fold_fits(ops: Seq<Op>, x: int) -> bool {
    forall|k: int| 0 <= k <= ops.len() ==> i32::MIN <= #[trigger] fold_ops(ops.take(k), x) <= i32::MAX
}

/// Runs `start` through every step of `ops` in order.
pub fn run_ops(ops: &[Op], start: i32) -> (r: i32)
    requires
        fold_fits(ops@, start as int),
    ensures
        r == fold_ops(ops@, start as int),
{
    let mut acc = start;
    let mut k: usize = 0;
    assert(ops@.take(0) =~= Seq::<Op>::empty());
    while k < ops.len()
        invariant
            k <= ops.len(),
            fold_fits(ops@, start as int),
            acc == fold_ops(ops@.take(k as int), start as int),
        decreases ops.len() - k,
    {
        assert(ops@.take(k + 1).drop_last() =~= ops@.take(k as int));
        assert(i32::MIN <= fold_ops(ops@.take(k + 1), start as int) <= i32::MAX);
        acc = ops[k].apply(acc);
        k = k + 1;
    }
    assert(ops@.take(ops.len() as int) =~= ops@);
    acc
}

/// The steps add 1, multiply by 2, add `add`: a pipeline assembled at run
/// time.
pub fn build_pipeline(add: i32) -> (ops: Vec<Op>)
    ensures
        ops@ == seq![Op::Add(1), Op::Mul(2), Op::Add(add)],
{
    let mut ops: Vec<Op> = Vec::new();
    ops.push(Op::Add(1));
    ops.push(Op::Mul(2));
    ops.push(Op::Add(add));
    assert(ops@ =~= seq![Op::Add(1), Op::Mul(2), Op::Add(add)]);
    ops
}

/// Runs `start` through a pipeline of steps, first to last.
pub fn run_pipeline(steps: &[Op], start: i32) -> (r: i32)
    requires
        fold_fits(steps@, start as int),
    ensures
        r == fold_ops(steps@, start as int),
{
    run_ops(steps, start)
}

/// The pipeline as a list of enum steps.
pub fn run_enum(start: i32) -> (r: i32)
    requires
        pipeline_fits(start as int),
    ensures
        r == pipeline_value(start as int),
{
    let mut ops: Vec<Op> = Vec::new();
    ops.push(Op::Add(3));
    ops.push(Op::Mul(2));
    ops.push(Op::Neg);
    let x = ops[0].apply(start);
    let y = ops[1].apply(x);
    ops[2].apply(y)
}

/// The three ways of running the pipeline agree: the composed type, the
/// trait objects and the enum steps all compute `-(2 * (start + 3))`.
pub proof fn law_dispatch_agrees(start: int)
    requires
        pipeline_fits(start),
    ensures
        Compose(Add(3), Compose(Mul(2), Neg)).applies_to(start),
        Compose(Add(3), Compose(Mul(2), Neg)).result(start) == pipeline_value(start),
        fold_ops(seq![Op::Add(3), Op::Mul(2), Op::Neg], start) == pipeline_value(start),
{
    let s = seq![Op::Add(3), Op::Mul(2), Op::Neg];
    assert(s.drop_last() =~= seq![Op::Add(3), Op::Mul(2)]);
    assert(s.drop_last().drop_last() =~= seq![Op::Add(3)]);
    assert(s.drop_last().drop_last().drop_last() =~= Seq::<Op>::empty());
    reveal_with_fuel(fold_ops, 4);
}

} // verus!
