//! Associated types versus generic parameters: one trait implemented once
//! per type, another implemented once per type argument, a grid graph, and a
//! small iterator protocol with a mapping adapter.
use vstd::prelude::*;
use crate::text::{format_i64, signed_decimal};

verus! {

/// A stack of integers.
pub struct Stack {
    pub items: Vec<i32>,
}

/// Popping, with the element type fixed by the implementing type.
pub trait PopAssoc {
    type Item;

    /// The contents, bottom first.
    spec fn contents(&self) -> Seq<Self::Item>;

    fn pop_it(&mut self) -> (r: Option<Self::Item>)
        ensures
            old(self).contents().len() == 0 ==> r is None && final(self).contents() == old(self).contents(),
            old(self).contents().len() > 0 ==> r == Some(old(self).contents().last())
                && final(self).contents() == old(self).contents().drop_last(),
    ;
}

/// Popping, with the element type chosen by the caller.
pub trait PopGeneric<T> {
    /// The contents, bottom first.
    spec fn elements(&self) -> Seq<T>;

    fn pop_it(&mut self) -> (r: Option<T>)
        ensures
            old(self).elements().len() == 0 ==> r is None && final(self).elements() == old(self).elements(),
            old(self).elements().len() > 0 ==> r == Some(old(self).elements().last())
                && final(self).elements() == old(self).elements().drop_last(),
    ;
}

impl PopAssoc for Stack {
    type Item = i32;

    open spec fn contents(&self) -> Seq<i32> {
        self.items@
    }

    fn pop_it(&mut self) -> (r: Option<i32>) {
        self.items.pop()
    }
}

impl PopGeneric<i32> for Stack {
    open spec fn elements(&self) -> Seq<i32> {
        self.items@
    }

    fn pop_it(&mut self) -> (r: Option<i32>) {
        self.items.pop()
    }
}

/// A counter holding one number.
pub struct Counter {
    pub n: i32,
}

/// Produces one value, of the one type the implementer picks.
pub trait Producer {
    type Output;

    spec fn produced(&self) -> Self::Output;

    fn produce(&self) -> (r: Self::Output)
        ensures
            r == self.produced(),
    ;
}

impl Producer for Counter {
    type Output = i32;

    open spec fn produced(&self) -> i32 {
        self.n
    }

    fn produce(&self) -> (r: i32) {
        self.n
    }
}

/// Converts into `T`; a type may convert into many `T`s.
pub trait Convert<T> {
    /// Whether `out` is what `self` converts to.
    spec fn converts_to(&self, out: T) -> bool;

    fn convert(&self) -> (r: T)
        ensures
            self.converts_to(r),
    ;
}

impl Convert<i32> for Counter {
    open spec fn converts_to(&self, out: i32) -> bool {
        out == self.n
    }

    fn convert(&self) -> (r: i32) {
        self.n
    }
}

impl Convert<String> for Counter {
    open spec fn converts_to(&self, out: String) -> bool {
        out@ == signed_decimal(self.n as int)
    }

    fn convert(&self) -> (r: String) {
        format_i64(self.n as i64)
    }
}

/// A conversion the caller names by type.
pub fn pull<T>(c: &Counter) -> (r: T)
    where
        Counter: Convert<T>,
    ensures
        c.converts_to(r),
{
    c.convert()
}

/// Counts down from `current` to 1.
pub struct Countdown {
    pub current: u32,
}

impl Countdown {
    /// What the countdown still yields.
    pub open spec fn remaining(&self) -> Seq<u32> {
        Seq::new(self.current as nat, |i: int| (self.current - i) as u32)
    }

    pub fn next(&mut self) -> (r: Option<u32>)
        ensures
            old(self).current == 0 ==> r is None && final(self).current == 0,
            old(self).current > 0 ==> r == Some(old(self).current) && final(self).current
                == old(self).current - 1,
            final(self).remaining() == if old(self).current == 0 {
                old(self).remaining()
            } else {
                old(self).remaining().drop_first()
            },
    {
        if self.current == 0 {
            None
        } else {
            let c = self.current;
            self.current = self.current - 1;
            assert(self.remaining() =~= old(self).remaining().drop_first());
            Some(c)
        }
    }
}

/// Everything a countdown yields.
pub fn collect_countdown(cd: Countdown) -> (v: Vec<u32>)
    ensures
        v@ == cd.remaining(),
{
    let mut it = cd;
    let mut v: Vec<u32> = Vec::new();
    assert(cd.remaining() =~= v@ + it.remaining());
    while it.current > 0
        invariant
            cd.remaining() == v@ + it.remaining(),
        decreases it.current,
    {
        let ghost before = it.remaining();
        let ghost vb = v@;
        match it.next() {
            Some(x) => {
                v.push(x);
            },
            None => {},
        }
        assert(v@ + it.remaining() =~= vb + before);
    }
    assert(it.remaining() =~= Seq::<u32>::empty());
    assert(cd.remaining() =~= v@);
    v
}

/// A graph with its own node and weight types.
pub trait Graph {
    type NodeId;
    type Weight;

    /// Whether `n` is a node whose neighbours can be listed.
    spec fn has_node(&self, n: Self::NodeId) -> bool;

    /// The neighbours of `n`, each with the weight of the edge to it.
    spec fn neighbor_list(&self, n: Self::NodeId) -> Seq<(Self::NodeId, Self::Weight)>;

    fn neighbors(&self, n: Self::NodeId) -> (r: Vec<(Self::NodeId, Self::Weight)>)
        requires
            self.has_node(n),
        ensures
            r@ == self.neighbor_list(n),
    ;
}

/// A `w` by `h` grid whose cells touch their four axis neighbours.
pub struct Grid {
    pub w: i32,
    pub h: i32,
}

/// The four steps, in the order they are tried.
pub open spec fn step(k: int) -> (int, int) {
    if k == 0 {
        (1, 0)
    } else if k == 1 {
        (-1, 0)
    } else if k == 2 {
        (0, 1)
    } else {
        (0, -1)
    }
}

/// The cells reached by the first `k` steps from `n` that lie inside the
/// grid, each with weight 1.
pub open spec fn grid_steps(g: Grid, n: (i32, i32), k: int) -> Seq<((i32, i32), u32)>
    decreases k,
{
    if k <= 0 {
        seq![]
    } else {
        let prev = grid_steps(g, n, k - 1);
        let x = n.0 + step(k - 1).0;
        let y = n.1 + step(k - 1).1;
        if 0 <= x < g.w && 0 <= y < g.h {
            prev.push(((x as i32, y as i32), 1u32))
        } else {
            prev
        }
    }
}

impl Graph for Grid {
    type NodeId = (i32, i32);
    type Weight = u32;

    open spec fn has_node(&self, n: (i32, i32)) -> bool {
        i32::MIN < n.0 < i32::MAX && i32::MIN < n.1 < i32::MAX
    }

    open spec fn neighbor_list(&self, n: (i32, i32)) -> Seq<((i32, i32), u32)> {
        grid_steps(*self, n, 4)
    }

    fn neighbors(&self, n: (i32, i32)) -> (r: Vec<((i32, i32), u32)>) {
        let (x, y) = n;
        let mut out: Vec<((i32, i32), u32)> = Vec::new();
        let mut k: usize = 0;
        while k < 4
            invariant
                k <= 4,
                i32::MIN < x < i32::MAX,
                i32::MIN < y < i32::MAX,
                n == (x, y),
                out@ == grid_steps(*self, n, k as int),
            decreases 4 - k,
        {
            let (dx, dy): (i32, i32) = if k == 0 {
                (1, 0)
            } else if k == 1 {
                (-1, 0)
            } else if k == 2 {
                (0, 1)
            } else {
                (0, -1)
            };
            assert((dx as int, dy as int) == step(k as int));
            let nx = x + dx;
            let ny = y + dy;
            if nx >= 0 && nx < self.w && ny >= 0 && ny < self.h {
                out.push(((nx, ny), 1));
            }
            k = k + 1;
        }
        out
    }
}

/// How many neighbours `n` has.
pub fn neighbor_count<G: Graph>(g: &G, n: G::NodeId) -> (c: usize)
    requires
        g.has_node(n),
    ensures
        c == g.neighbor_list(n).len(),
{
    g.neighbors(n).len()
}

/// A hand-rolled iterator protocol.
pub trait MyIterator: Sized {
    type Item;

    /// Whether the iterator can yield exactly the items `s`, in order, and
    /// then stop.
    spec fn yields(&self, s: Seq<Self::Item>) -> bool;

    /// A bound on how many items are left.
    spec fn left(&self) -> nat;

    /// Whether the iterator may be advanced.
    spec fn ready(&self) -> bool;

    fn next(&mut self) -> (r: Option<Self::Item>)
        requires
            old(self).ready(),
        ensures
            final(self).ready(),
            r matches Some(x) ==> final(self).left() < old(self).left() && forall|s: Seq<Self::Item>|
                #[trigger] final(self).yields(s) ==> old(self).yields(seq![x] + s),
            r is None ==> old(self).yields(Seq::<Self::Item>::empty()),
    ;
}

/// Counts up from `next` to just below `end`.
pub struct Upto {
    pub next: u32,
    pub end: u32,
}

/// `lo`, `lo + 1`, ... below `hi`.
pub open spec fn upto_seq(lo: u32, hi: u32) -> Seq<u32> {
    Seq::new(if lo < hi { (hi - lo) as nat } else { 0 }, |i: int| (lo + i) as u32)
}

impl MyIterator for Upto {
    type Item = u32;

    open spec fn yields(&self, s: Seq<u32>) -> bool {
        s == upto_seq(self.next, self.end)
    }

    open spec fn left(&self) -> nat {
        if self.next < self.end {
            (self.end - self.next) as nat
        } else {
            0
        }
    }

    open spec fn ready(&self) -> bool {
        true
    }

    fn next(&mut self) -> (r: Option<u32>) {
        if self.next >= self.end {
            assert(upto_seq(self.next, self.end) =~= Seq::<u32>::empty());
            None
        } else {
            let current = self.next;
            self.next = self.next + 1;
            assert forall|s: Seq<u32>| #[trigger] self.yields(s) implies old(self).yields(
                seq![current] + s,
            ) by {
                assert(seq![current] + s =~= upto_seq(old(self).next, old(self).end));
            }
            Some(current)
        }
    }
}

/// Applies `f` to every item of `iter`.
pub struct MapIter<I, F> {
    pub iter: I,
    pub f: F,
}

/// Whether `out` is `f` applied to each item of `ins`.
pub open spec fn mapped<A, B, F: Fn(A) -> B>(f: F, ins: Seq<A>, out: Seq<B>) -> bool {
    ins.len() == out.len() && forall|i: int| 0 <= i < ins.len() ==> call_ensures(f, (ins[i],), #[trigger] out[i])
}

impl<I: MyIterator, B, F: Fn(I::Item) -> B> MyIterator for MapIter<I, F> {
    type Item = B;

    open spec fn yields(&self, s: Seq<B>) -> bool {
        exists|t: Seq<I::Item>| self.iter.yields(t) && #[trigger] mapped(self.f, t, s)
    }

    open spec fn left(&self) -> nat {
        self.iter.left()
    }

    open spec fn ready(&self) -> bool {
        self.iter.ready() && forall|x: I::Item| call_requires(self.f, (x,))
    }

    fn next(&mut self) -> (r: Option<B>) {
        let nx = self.iter.next();
        match nx {
            Some(x) => {
                let y = (self.f)(x);
                proof {
                    assert forall|s: Seq<B>| #[trigger] self.yields(s) implies old(self).yields(
                        seq![y] + s,
                    ) by {
                        let t = choose|t: Seq<I::Item>| self.iter.yields(t) && #[trigger] mapped(
                            self.f,
                            t,
                            s,
                        );
                        assert(old(self).iter.yields(seq![x] + t));
                        assert(mapped(self.f, seq![x] + t, seq![y] + s)) by {
                            assert forall|i: int| 0 <= i < (seq![x] + t).len() implies call_ensures(
                                self.f,
                                ((seq![x] + t)[i],),
                                #[trigger] (seq![y] + s)[i],
                            ) by {
                                if i > 0 {
                                    assert((seq![x] + t)[i] == t[i - 1]);
                                    assert((seq![y] + s)[i] == s[i - 1]);
                                }
                            }
                        }
                    }
                }
                Some(y)
            },
            None => {
                proof {
                    assert(mapped(self.f, Seq::<I::Item>::empty(), Seq::<B>::empty()));
                    assert(old(self).iter.yields(Seq::<I::Item>::empty()));
                }
                None
            },
        }
    }
}

/// Wraps `iter` so that each item goes through `f`.
pub fn map_it<I: MyIterator, B, F: Fn(I::Item) -> B>(iter: I, f: F) -> (m: MapIter<I, F>)
    requires
        iter.ready(),
        forall|x: I::Item| call_requires(f, (x,)),
    ensures
        m.ready(),
        m.iter == iter,
        m.f == f,
{
    MapIter { iter, f }
}

/// Runs an iterator to its end and collects what it yields.
pub fn collect_my<I: MyIterator>(start: I) -> (v: Vec<I::Item>)
    requires
        start.ready(),
    ensures
        start.yields(v@),
{
    let mut it = start;
    let mut v: Vec<I::Item> = Vec::new();
    assert forall|s: Seq<I::Item>| #[trigger] it.yields(s) implies start.yields(v@ + s) by {
        assert(v@ + s =~= s);
    }
    loop
        invariant
            it.ready(),
            forall|s: Seq<I::Item>| #[trigger] it.yields(s) ==> start.yields(v@ + s),
        decreases it.left(),
    {
        let ghost vb = v@;
        let ghost before = it;
        match it.next() {
            Some(x) => {
                v.push(x);
                assert forall|s: Seq<I::Item>| #[trigger] it.yields(s) implies start.yields(v@ + s) by {
                    assert(before.yields(seq![x] + s));
                    assert(vb + (seq![x] + s) =~= v@ + s);
                }
            },
            None => {
                assert(before.yields(Seq::<I::Item>::empty()));
                assert(vb + Seq::<I::Item>::empty() =~= v@);
                return v;
            },
        }
    }
}

} // verus!
