//! Double-ended queues at work: a bounded sliding window and a breadth-first
//! traversal.
use vstd::prelude::*;
use std::collections::VecDeque;

verus! {

/// The largest element of a non-empty sequence.
pub open spec fn seq_max(s: Seq<i32>) -> i32
    recommends
        s.len() > 0,
    decreases s.len(),
{
    if s.len() <= 1 {
        s[0]
    } else {
        let m = seq_max(s.drop_last());
        if s.last() > m {
            s.last()
        } else {
            m
        }
    }
}

/// Where the window of the last `cap` values ending at position `i` starts.
pub open spec fn window_start(i: int, cap: int) -> int {
    if i + 1 >= cap {
        i + 1 - cap
    } else {
        0
    }
}

/// The largest element of a non-empty sequence is at least every element and
/// is one of them.
pub proof fn lemma_seq_max(s: Seq<i32>)
    requires
        s.len() > 0,
    ensures
        forall|k: int| 0 <= k < s.len() ==> s[k] <= seq_max(s),
        exists|k: int| 0 <= k < s.len() && seq_max(s) == s[k],
    decreases s.len(),
{
    if s.len() > 1 {
        let d = s.drop_last();
        lemma_seq_max(d);
        assert forall|k: int| 0 <= k < s.len() implies s[k] <= seq_max(s) by {
            if k < s.len() - 1 {
                assert(s[k] == d[k]);
            }
        }
        if s.last() > seq_max(d) {
            assert(seq_max(s) == s[s.len() - 1]);
        } else {
            let k = choose|k: int| 0 <= k < d.len() && seq_max(d) == d[k];
            assert(seq_max(s) == s[k]);
        }
    } else {
        assert(seq_max(s) == s[0]);
    }
}

/// Whether `x` is one of the values `values[j]` with `0 <= j <= i` and
/// `i + 1 - cap <= j`: the last `cap` values up to position `i`.
pub open spec fn in_window(values: Seq<i32>, cap: int, i: int, x: i32) -> bool {
    exists|j: int| 0 <= j <= i && i + 1 - cap <= j && values[j] == x
}

/// The maximum of the window ending at `i`: at least every value
/// `values[j]` with `i + 1 - cap <= j <= i` (and `j >= 0`), and equal to one
/// of them; with `cap == 1` it is `values[i]` itself.
pub proof fn law_window_max(values: Seq<i32>, cap: int, i: int)
    requires
        cap > 0,
        0 <= i < values.len(),
    ensures
        forall|j: int|
            0 <= j <= i && i + 1 - cap <= j ==> values[j] <= #[trigger] seq_max(
                values.subrange(window_start(i, cap), i + 1),
            ),
        in_window(values, cap, i, seq_max(values.subrange(window_start(i, cap), i + 1))),
        cap == 1 ==> seq_max(values.subrange(window_start(i, cap), i + 1)) == values[i],
{
    let lo = window_start(i, cap);
    let w = values.subrange(lo, i + 1);
    lemma_seq_max(w);
    assert(0 <= lo && lo <= i && lo >= i + 1 - cap);
    assert forall|j: int| 0 <= j <= i && i + 1 - cap <= j implies values[j] <= #[trigger] seq_max(
        values.subrange(window_start(i, cap), i + 1),
    ) by {
        assert(w[j - lo] == values[j]);
    }
    let k = choose|k: int| 0 <= k < w.len() && seq_max(w) == w[k];
    assert(w[k] == values[lo + k]);
    if cap == 1 {
        assert(w.len() == 1);
    }
}

/// The largest value in a non-empty window.
fn window_max(d: &VecDeque<i32>) -> (m: i32)
    requires
        d@.len() > 0,
    ensures
        m == seq_max(d@),
{
    let mut m = d[0];
    let mut j: usize = 1;
    assert(d@.take(1).drop_last() =~= Seq::<i32>::empty());
    while j < d.len()
        invariant
            1 <= j <= d@.len(),
            m == seq_max(d@.take(j as int)),
        decreases d@.len() - j,
    {
        assert(d@.take(j + 1).drop_last() =~= d@.take(j as int));
        if d[j] > m {
            m = d[j];
        }
        j = j + 1;
    }
    assert(d@.take(d@.len() as int) =~= d@);
    m
}

/// After each value, the largest of the last `cap` values seen so far.
pub fn sliding_max(values: &[i32], cap: usize) -> (r: Vec<i32>)
    ensures
        cap == 0 ==> r@.len() == 0,
        cap > 0 ==> r@.len() == values@.len(),
        cap > 0 ==> forall|i: int|
            0 <= i < values@.len() ==> #[trigger] r@[i] == seq_max(
                values@.subrange(window_start(i, cap as int), i + 1),
            ),
        cap > 0 ==> forall|i: int, j: int|
            0 <= j <= i < values@.len() && i + 1 - cap <= j ==> values@[j] <= #[trigger] r@[i]
                && #[trigger] values@[j] <= r@[i],
        cap > 0 ==> forall|i: int| 0 <= i < values@.len() ==> in_window(values@, cap as int, i, #[trigger] r@[i]),
{
    if cap == 0 {
        return Vec::new();
    }
    let mut window: VecDeque<i32> = VecDeque::new();
    let mut maxima: Vec<i32> = Vec::new();
    let mut i: usize = 0;
    while i < values.len()
        invariant
            cap > 0,
            i <= values.len(),
            window@ == values@.subrange(window_start(i - 1, cap as int), i as int),
            maxima@.len() == i,
            forall|k: int|
                0 <= k < i ==> #[trigger] maxima@[k] == seq_max(
                    values@.subrange(window_start(k, cap as int), k + 1),
                ),
        decreases values.len() - i,
    {
        window.push_back(values[i]);
        if window.len() > cap {
            window.pop_front();
        }
        assert(window@ =~= values@.subrange(window_start(i as int, cap as int), i + 1));
        let m = window_max(&window);
        maxima.push(m);
        i = i + 1;
    }
    proof {
        assert forall|i: int| 0 <= i < values@.len() implies in_window(values@, cap as int, i, maxima@[i]) by {
            law_window_max(values@, cap as int, i);
            assert(maxima@[i] == seq_max(values@.subrange(window_start(i, cap as int), i + 1)));
        }
        assert forall|i: int, j: int|
            0 <= j <= i < values@.len() && i + 1 - cap <= j implies values@[j] <= #[trigger] maxima@[i]
                && #[trigger] values@[j] <= maxima@[i] by {
            law_window_max(values@, cap as int, i);
        }
    }
    maxima
}

/// How many entries of `s` are set.
pub open spec fn count_true(s: Seq<bool>) -> nat
    decreases s.len(),
{
    if s.len() == 0 {
        0
    } else {
        count_true(s.drop_last()) + if s.last() {
            1nat
        } else {
            0nat
        }
    }
}

proof fn lemma_count_true_bound(s: Seq<bool>)
    ensures
        count_true(s) <= s.len(),
    decreases s.len(),
{
    if s.len() > 0 {
        lemma_count_true_bound(s.drop_last());
    }
}

proof fn lemma_count_true_set(s: Seq<bool>, x: int)
    requires
        0 <= x < s.len(),
        !s[x],
    ensures
        count_true(s.update(x, true)) == count_true(s) + 1,
    decreases s.len(),
{
    let t = s.update(x, true);
    if x < s.len() - 1 {
        assert(t.drop_last() =~= s.drop_last().update(x, true));
        lemma_count_true_set(s.drop_last(), x);
    } else {
        assert(t.drop_last() =~= s.drop_last());
    }
}

/// Whether every neighbour in `ns` names one of the `n` nodes.
pub open spec fn row_in_range(ns: Seq<usize>, n: int) -> bool {
    forall|j: int| 0 <= j < ns.len() ==> #[trigger] ns[j] < n
}

/// Visiting the neighbours `ns` of a node in order: each one not yet seen is
/// marked seen and queued.
pub open spec fn expand(ns: Seq<usize>, seen: Seq<bool>, queue: Seq<usize>) -> (Seq<bool>, Seq<usize>)
    decreases ns.len(),
{
    if ns.len() == 0 {
        (seen, queue)
    } else {
        let (s2, q2) = expand(ns.drop_last(), seen, queue);
        let x = ns.last() as int;
        if s2[x] {
            (s2, q2)
        } else {
            (s2.update(x, true), q2.push(ns.last()))
        }
    }
}

/// Breadth-first search for up to `fuel` more steps: take the front of the
/// queue, record it, and queue its unseen neighbours.
pub open spec fn bfs_steps(
    adj: Seq<Seq<usize>>,
    seen: Seq<bool>,
    queue: Seq<usize>,
    order: Seq<usize>,
    fuel: nat,
) -> Seq<usize>
    decreases fuel,
{
    if fuel == 0 || queue.len() == 0 {
        order
    } else {
        let node = queue[0];
        let (s2, q2) = expand(adj[node as int], seen, queue.drop_first());
        bfs_steps(adj, s2, q2, order.push(node), (fuel - 1) as nat)
    }
}

/// Whether, for up to `fuel` more steps, every node the search takes off the
/// queue lists only neighbours that are nodes of the graph.
pub open spec fn bfs_safe(adj: Seq<Seq<usize>>, seen: Seq<bool>, queue: Seq<usize>, fuel: nat) -> bool
    decreases fuel,
{
    if fuel == 0 || queue.len() == 0 {
        true
    } else {
        let node = queue[0];
        let (s2, q2) = expand(adj[node as int], seen, queue.drop_first());
        row_in_range(adj[node as int], adj.len() as int) && bfs_safe(adj, s2, q2, (fuel - 1) as nat)
    }
}

/// Whether breadth-first search from node 0 only ever meets neighbours that
/// are nodes of the graph: every node it reaches has its neighbour list.
pub open spec fn reachable_rows_in_range(adj: Seq<Seq<usize>>) -> bool {
    adj.len() == 0 || bfs_safe(adj, only_first(adj.len()), seq![0usize], adj.len())
}

/// The order in which breadth-first search from node 0 visits the graph.
pub open spec fn bfs_order(adj: Seq<Seq<usize>>) -> Seq<usize> {
    if adj.len() == 0 {
        seq![]
    } else {
        bfs_steps(
            adj,
            only_first(adj.len()),
            seq![0usize],
            seq![],
            adj.len(),
        )
    }
}

/// Whether every node of `s` after the first is a neighbour of a node that
/// comes before it.
pub open spec fn each_reached_from_earlier(g: Seq<Seq<usize>>, s: Seq<usize>) -> bool {
    forall|p: int| 1 <= p < s.len() ==> #[trigger] reached_before(g, s, p)
}

/// Whether node `s[p]` is a neighbour of some node listed before it in `s`.
pub open spec fn reached_before(g: Seq<Seq<usize>>, s: Seq<usize>, p: int) -> bool {
    exists|q: int| 0 <= q < p && #[trigger] g[s[q] as int].contains(s[p])
}

/// Whether every neighbour of a node of `s` is itself in `s`.
pub open spec fn closed_under_edges(g: Seq<Seq<usize>>, s: Seq<usize>) -> bool {
    forall|i: int, j: int|
        0 <= i < s.len() && 0 <= j < g[s[i] as int].len() ==> s.contains(
            #[trigger] g[s[i] as int][j],
        )
}

/// Whether node `s[p]` is a neighbour of one of the nodes `s[0..=q]`.
pub open spec fn parent_within(g: Seq<Seq<usize>>, s: Seq<usize>, p: int, q: int) -> bool {
    exists|q1: int| 0 <= q1 <= q && #[trigger] g[s[q1] as int].contains(s[p])
}

/// Whether `s` comes layer by layer, as a first-in first-out search lists
/// nodes: whenever a node of `s` (after the first) is a neighbour of one of
/// the first nodes of `s`, so is every node listed before it.
pub open spec fn in_layer_order(g: Seq<Seq<usize>>, s: Seq<usize>) -> bool {
    forall|p1: int, p2: int, q: int|
        #![trigger parent_within(g, s, p2, q), parent_within(g, s, p1, q)]
        1 <= p1 < p2 < s.len() && 0 <= q < s.len() && parent_within(g, s, p2, q)
            ==> parent_within(g, s, p1, q)
}

/// Queueing a node not seen yet, found among the neighbours of a queued or
/// visited node, keeps the search's bookkeeping: the seen flags still mark
/// exactly the listed nodes, none twice, each reached from an earlier one.
proof fn lemma_queue_unseen(
    g: Seq<Seq<usize>>,
    before: Seq<usize>,
    seen_before: Seq<bool>,
    x: usize,
    qn: int,
    n: int,
)
    requires
        seen_before.len() == n,
        n <= usize::MAX,
        x < n,
        !seen_before[x as int],
        forall|y: int| 0 <= y < n ==> (#[trigger] seen_before[y] <==> before.contains(y as usize)),
        before.no_duplicates(),
        each_reached_from_earlier(g, before),
        0 <= qn < before.len(),
        g[before[qn] as int].contains(x),
    ensures
        forall|y: int|
            0 <= y < n ==> (#[trigger] seen_before.update(x as int, true)[y] <==> before.push(
                x,
            ).contains(y as usize)),
        before.push(x).no_duplicates(),
        each_reached_from_earlier(g, before.push(x)),
{
    let after = before.push(x);
    let seen = seen_before.update(x as int, true);
    assert(!before.contains(x));
    assert forall|y: int| 0 <= y < n implies (#[trigger] seen[y] <==> after.contains(
        y as usize,
    )) by {
        if y != x as int {
            assert(seen[y] == seen_before[y]);
            if after.contains(y as usize) {
                let w = choose|w: int| 0 <= w < after.len() && after[w] == y as usize;
                assert(after[before.len() as int] == x);
                assert(w < before.len());
                assert(before[w] == y as usize);
            }
            if before.contains(y as usize) {
                let w = choose|w: int| 0 <= w < before.len() && before[w] == y as usize;
                assert(after[w] == y as usize);
            }
        } else {
            assert(after[before.len() as int] == x);
        }
    }
    assert forall|a: int, b: int|
        0 <= a < after.len() && 0 <= b < after.len() && a != b implies after[a] != after[b] by {
        if a == before.len() as int && b < before.len() {
            assert(before[b] == after[b]);
        } else if b == before.len() as int && a < before.len() {
            assert(before[a] == after[a]);
        }
    }
    assert(after[qn] == before[qn]);
    assert(g[after[qn] as int].contains(after[before.len() as int]));
    assert forall|p: int| 1 <= p < before.push(x).len() implies #[trigger] reached_before(
        g,
        before.push(x),
        p,
    ) by {
        if p < before.len() {
            assert(reached_before(g, before, p));
            assert(before[p] == before.push(x)[p]);
            let q = choose|q: int| 0 <= q < p && #[trigger] g[before[q] as int].contains(before[p]);
            assert(before.push(x)[q] == before[q]);
            assert(g[before.push(x)[q] as int].contains(before.push(x)[p]));
        } else {
            assert(p == before.len());
            assert(0 <= qn < p);
            assert(g[before.push(x)[qn] as int].contains(before.push(x)[p]));
        }
    }
    assert(each_reached_from_earlier(g, before.push(x)));
}

/// What the search knows of the nodes it has listed (visited, then queued):
/// the seen flags mark exactly them, none is listed twice, node 0 comes
/// first, each later one is a neighbour of an earlier one, the visited nodes
/// have neighbour lists within the graph, and the neighbours of the first
/// `done` visited nodes are all seen.
#[verifier::opaque]
pub open spec fn search_book(
    g: Seq<Seq<usize>>,
    seen: Seq<bool>,
    order: Seq<usize>,
    queue: Seq<usize>,
    n: int,
    done: int,
) -> bool {
    &&& forall|x: int| 0 <= x < n ==> (#[trigger] seen[x] <==> (order + queue).contains(x as usize))
    &&& (order + queue).no_duplicates()
    &&& (order + queue).len() >= 1
    &&& (order + queue)[0] == 0
    &&& forall|t: int|
        0 <= t < order.len() ==> #[trigger] order[t] < n && row_in_range(g[order[t] as int], n)
    &&& forall|t: int, j: int|
        0 <= t < done && 0 <= j < g[order[t] as int].len() ==> seen[#[trigger] g[order[t] as int][j] as int]
    &&& each_reached_from_earlier(g, order + queue)
}

proof fn lemma_book_start(g: Seq<Seq<usize>>, n: int)
    requires
        1 <= n <= usize::MAX,
    ensures
        search_book(g, only_first(n as nat), seq![], seq![0usize], n, 0),
{
    reveal(search_book);
    let all = Seq::<usize>::empty() + seq![0usize];
    assert(all =~= seq![0usize]);
    assert forall|x: int| 0 <= x < n implies (#[trigger] only_first(n as nat)[x] <==> all.contains(
        x as usize,
    )) by {
        if x == 0 {
            assert(all[0] == 0usize);
        }
    }
}

/// Taking the front of the queue to the visited list changes nothing listed.
proof fn lemma_book_pop(
    g: Seq<Seq<usize>>,
    seen: Seq<bool>,
    order: Seq<usize>,
    queue: Seq<usize>,
    n: int,
)
    requires
        search_book(g, seen, order, queue, n, order.len() as int),
        queue.len() > 0,
        queue[0] < n,
        row_in_range(g[queue[0] as int], n),
    ensures
        search_book(g, seen, order.push(queue[0]), queue.drop_first(), n, order.len() as int),
{
    reveal(search_book);
    let o2 = order.push(queue[0]);
    assert(o2 + queue.drop_first() =~= order + queue);
    assert forall|t: int| 0 <= t < o2.len() implies #[trigger] o2[t] < n && row_in_range(
        g[o2[t] as int],
        n,
    ) by {
        if t < order.len() {
            assert(o2[t] == order[t]);
        }
    }
    assert forall|t: int, j: int|
        0 <= t < order.len() && 0 <= j < g[o2[t] as int].len() implies seen[#[trigger] g[o2[t] as int][j] as int] by {
        assert(o2[t] == order[t]);
    }
}

/// Queueing an unseen neighbour of the node being visited keeps the books.
proof fn lemma_book_queue(
    g: Seq<Seq<usize>>,
    seen: Seq<bool>,
    order: Seq<usize>,
    queue: Seq<usize>,
    n: int,
    x: usize,
    k: int,
)
    requires
        search_book(g, seen, order, queue, n, order.len() - 1),
        order.len() >= 1,
        seen.len() == n,
        n <= usize::MAX,
        x < n,
        !seen[x as int],
        0 <= k < g[order.last() as int].len(),
        g[order.last() as int][k] == x,
    ensures
        search_book(g, seen.update(x as int, true), order, queue.push(x), n, order.len() - 1),
{
    reveal(search_book);
    let before = order + queue;
    let qn = order.len() - 1;
    assert(before[qn] == order.last());
    assert(g[before[qn] as int].contains(x));
    lemma_queue_unseen(g, before, seen, x, qn, n);
    assert(order + queue.push(x) =~= before.push(x));
    let seen2 = seen.update(x as int, true);
    assert forall|t: int, j: int|
        0 <= t < order.len() - 1 && 0 <= j < g[order[t] as int].len() implies seen2[#[trigger] g[order[t] as int][j] as int] by {
        assert(order[t] < n && row_in_range(g[order[t] as int], n));
        assert(seen[g[order[t] as int][j] as int]);
    }
}

/// Once every neighbour of the node being visited is seen, that node is done.
proof fn lemma_book_row_done(
    g: Seq<Seq<usize>>,
    seen: Seq<bool>,
    order: Seq<usize>,
    queue: Seq<usize>,
    n: int,
)
    requires
        search_book(g, seen, order, queue, n, order.len() - 1),
        order.len() >= 1,
        forall|j: int|
            0 <= j < g[order.last() as int].len() ==> seen[#[trigger] g[order.last() as int][j] as int],
    ensures
        search_book(g, seen, order, queue, n, order.len() as int),
{
    reveal(search_book);
    assert forall|t: int, j: int|
        0 <= t < order.len() && 0 <= j < g[order[t] as int].len() implies seen[#[trigger] g[order[t] as int][j] as int] by {
        if t == order.len() - 1 {
            assert(order[t] == order.last());
        }
    }
}

/// When the queue runs dry, the visited list has the promised properties.
proof fn lemma_book_end(g: Seq<Seq<usize>>, seen: Seq<bool>, order: Seq<usize>, n: int)
    requires
        search_book(g, seen, order, seq![], n, order.len() as int),
    ensures
        order.no_duplicates(),
        forall|i: int| 0 <= i < order.len() ==> #[trigger] order[i] < n,
        order.len() >= 1 && order[0] == 0,
        closed_under_edges(g, order),
        each_reached_from_earlier(g, order),
{
    reveal(search_book);
    assert(order + Seq::<usize>::empty() =~= order);
    assert forall|i: int, j: int|
        0 <= i < order.len() && 0 <= j < g[order[i] as int].len() implies order.contains(
        #[trigger] g[order[i] as int][j],
    ) by {
        let y = g[order[i] as int][j];
        assert(order[i] < n && row_in_range(g[order[i] as int], n));
        assert(y < n);
        assert(seen[y as int]);
    }
}

/// The search's record of layers: each listed node after the first is a
/// neighbour of a visited node, and the listing is in layer order as far as
/// the first `done` visited nodes go.
#[verifier::opaque]
pub open spec fn layer_book(g: Seq<Seq<usize>>, order: Seq<usize>, queue: Seq<usize>, done: int) -> bool {
    &&& forall|p: int|
        1 <= p < (order + queue).len() ==> #[trigger] parent_within(g, order + queue, p, order.len() - 1)
    &&& forall|p1: int, p2: int, q: int|
        #![trigger parent_within(g, order + queue, p2, q), parent_within(g, order + queue, p1, q)]
        1 <= p1 < p2 < (order + queue).len() && 0 <= q < done && parent_within(g, order + queue, p2, q)
            ==> parent_within(g, order + queue, p1, q)
}

proof fn lemma_layer_start(g: Seq<Seq<usize>>)
    ensures
        layer_book(g, seq![], seq![0usize], 0),
{
    reveal(layer_book);
    assert(Seq::<usize>::empty() + seq![0usize] =~= seq![0usize]);
}

proof fn lemma_layer_pop(g: Seq<Seq<usize>>, order: Seq<usize>, queue: Seq<usize>)
    requires
        layer_book(g, order, queue, order.len() as int),
        queue.len() > 0,
    ensures
        layer_book(g, order.push(queue[0]), queue.drop_first(), order.len() as int),
{
    reveal(layer_book);
    let s = order + queue;
    assert(order.push(queue[0]) + queue.drop_first() =~= s);
    assert forall|p: int| 1 <= p < s.len() implies #[trigger] parent_within(
        g,
        s,
        p,
        order.len() as int,
    ) by {
        assert(parent_within(g, s, p, order.len() - 1));
        let q1 = choose|q1: int| 0 <= q1 <= order.len() - 1 && #[trigger] g[s[q1] as int].contains(s[p]);
        assert(g[s[q1] as int].contains(s[p]));
    }
}

proof fn lemma_layer_queue(
    g: Seq<Seq<usize>>,
    seen: Seq<bool>,
    order: Seq<usize>,
    queue: Seq<usize>,
    n: int,
    x: usize,
    k: int,
)
    requires
        search_book(g, seen, order, queue, n, order.len() - 1),
        layer_book(g, order, queue, order.len() - 1),
        order.len() >= 1,
        seen.len() == n,
        n <= usize::MAX,
        x < n,
        !seen[x as int],
        0 <= k < g[order.last() as int].len(),
        g[order.last() as int][k] == x,
    ensures
        layer_book(g, order, queue.push(x), order.len() - 1),
{
    reveal(layer_book);
    reveal(search_book);
    let s = order + queue;
    let s2 = order + queue.push(x);
    let c = order.len() - 1;
    assert(s2 =~= s.push(x));
    assert(s2[c] == order.last());
    assert(g[s2[c] as int][k] == x);
    assert forall|p: int| 1 <= p < s2.len() implies #[trigger] parent_within(g, s2, p, c) by {
        if p < s.len() {
            assert(parent_within(g, s, p, c));
            let q1 = choose|q1: int| 0 <= q1 <= c && #[trigger] g[s[q1] as int].contains(s[p]);
            assert(s2[q1] == s[q1] && s2[p] == s[p]);
            assert(g[s2[q1] as int].contains(s2[p]));
        } else {
            assert(s2[p] == x);
            assert(g[s2[c] as int].contains(s2[p]));
        }
    }
    assert forall|p: int, q: int| 1 <= p < s.len() && 0 <= q < s.len() implies parent_within(
        g,
        s2,
        p,
        q,
    ) == parent_within(g, s, p, q) by {
        if parent_within(g, s2, p, q) {
            let q1 = choose|q1: int| 0 <= q1 <= q && #[trigger] g[s2[q1] as int].contains(s2[p]);
            assert(s2[q1] == s[q1] && s2[p] == s[p]);
            assert(g[s[q1] as int].contains(s[p]));
        }
        if parent_within(g, s, p, q) {
            let q1 = choose|q1: int| 0 <= q1 <= q && #[trigger] g[s[q1] as int].contains(s[p]);
            assert(s2[q1] == s[q1] && s2[p] == s[p]);
            assert(g[s2[q1] as int].contains(s2[p]));
        }
    }
    assert forall|q: int| 0 <= q < c implies !parent_within(g, s2, s.len() as int, q) by {
        if parent_within(g, s2, s.len() as int, q) {
            let q1 = choose|q1: int|
                0 <= q1 <= q && #[trigger] g[s2[q1] as int].contains(s2[s.len() as int]);
            assert(s2[s.len() as int] == x);
            assert(s2[q1] == order[q1]);
            let j = choose|j: int| 0 <= j < g[order[q1] as int].len() && g[order[q1] as int][j] == x;
            assert(seen[g[order[q1] as int][j] as int]);
        }
    }
    assert forall|p1: int, p2: int, q: int|
        #![trigger parent_within(g, s2, p2, q), parent_within(g, s2, p1, q)]
        1 <= p1 < p2 < s2.len() && 0 <= q < c && parent_within(g, s2, p2, q) implies parent_within(
        g,
        s2,
        p1,
        q,
    ) by {
        if p2 < s.len() {
            assert(parent_within(g, s, p2, q));
            assert(parent_within(g, s, p1, q));
        }
    }
}

proof fn lemma_layer_row_done(g: Seq<Seq<usize>>, order: Seq<usize>, queue: Seq<usize>)
    requires
        layer_book(g, order, queue, order.len() - 1),
        order.len() >= 1,
    ensures
        layer_book(g, order, queue, order.len() as int),
{
    reveal(layer_book);
    let s = order + queue;
    assert forall|p1: int, p2: int, q: int|
        #![trigger parent_within(g, s, p2, q), parent_within(g, s, p1, q)]
        1 <= p1 < p2 < s.len() && 0 <= q < order.len() && parent_within(g, s, p2, q)
            implies parent_within(g, s, p1, q) by {
        if q == order.len() - 1 {
            assert(parent_within(g, s, p1, order.len() - 1));
        }
    }
}

proof fn lemma_layer_end(g: Seq<Seq<usize>>, order: Seq<usize>)
    requires
        layer_book(g, order, seq![], order.len() as int),
    ensures
        in_layer_order(g, order),
{
    reveal(layer_book);
    assert(order + Seq::<usize>::empty() =~= order);
}

/// Breadth-first traversal from node 0 of the graph whose node `i` has the
/// neighbours `adj[i]`: the nodes in the order they are visited. Each node
/// reachable from 0 comes exactly once, 0 first, and each later one is a
/// neighbour of a node visited before it.
pub fn bfs_layers(adj: &[Vec<usize>]) -> (order: Vec<usize>)
    requires
        reachable_rows_in_range(adj@.map_values(|r: Vec<usize>| r@)),
    ensures
        order@ == bfs_order(adj@.map_values(|r: Vec<usize>| r@)),
        order@.no_duplicates(),
        forall|i: int| 0 <= i < order@.len() ==> #[trigger] order@[i] < adj.len(),
        adj.len() > 0 ==> order@.len() >= 1 && order@[0] == 0,
        closed_under_edges(adj@.map_values(|r: Vec<usize>| r@), order@),
        each_reached_from_earlier(adj@.map_values(|r: Vec<usize>| r@), order@),
        in_layer_order(adj@.map_values(|r: Vec<usize>| r@), order@),
{
    let ghost g = adj@.map_values(|r: Vec<usize>| r@);
    let n = adj.len();
    if n == 0 {
        return Vec::new();
    }
    let mut seen: Vec<bool> = Vec::new();
    let mut i: usize = 0;
    while i < n
        invariant
            i <= n,
            seen@ == only_first(i as nat),
        decreases n - i,
    {
        seen.push(i == 0);
        i = i + 1;
        assert(seen@ =~= only_first(i as nat));
    }
    let mut queue: VecDeque<usize> = VecDeque::new();
    queue.push_back(0);
    let mut order: Vec<usize> = Vec::new();
    proof {
        lemma_count_true_leading(n as nat);
        assert(seq![0usize] =~= queue@);
        lemma_book_start(g, n as int);
        lemma_layer_start(g);
    }
    while queue.len() > 0
        invariant
            n == adj.len(),
            n > 0,
            g == adj@.map_values(|r: Vec<usize>| r@),
            g.len() == n,
            seen@.len() == n,
            forall|k: int| 0 <= k < queue@.len() ==> #[trigger] queue@[k] < n,
            order@.len() + queue@.len() == count_true(seen@),
            bfs_order(g) == bfs_steps(g, seen@, queue@, order@, (n - order@.len()) as nat),
            bfs_safe(g, seen@, queue@, (n - order@.len()) as nat),
            search_book(g, seen@, order@, queue@, n as int, order@.len() as int),
            layer_book(g, order@, queue@, order@.len() as int),
        decreases n - order@.len(),
    {
        proof {
            lemma_count_true_bound(seen@);
        }
        let ghost qbefore = queue@;
        let ghost obefore = order@;
        let node = match queue.pop_front() {
            Some(x) => x,
            None => 0,
        };
        assert(node == qbefore[0] && node < n);
        assert(queue@ == qbefore.drop_first());
        assert(order@.len() < n);
        assert(row_in_range(g[node as int], n as int));
        let ghost seen0 = seen@;
        let ghost q0 = queue@;
        proof {
            lemma_book_pop(g, seen@, obefore, qbefore, n as int);
            lemma_layer_pop(g, obefore, qbefore);
        }
        order.push(node);
        let row = &adj[node];
        assert(row@ == g[node as int]);
        let mut k: usize = 0;
        assert(row@.take(0) =~= Seq::<usize>::empty());
        while k < row.len()
            invariant
                n == adj.len(),
                row@ == g[node as int],
                node < n,
                g.len() == n,
                row_in_range(g[node as int], n as int),
                k <= row@.len(),
                seen@.len() == n,
                forall|t: int| 0 <= t < queue@.len() ==> #[trigger] queue@[t] < n,
                order@.len() + queue@.len() == count_true(seen@),
                (seen@, queue@) == expand(row@.take(k as int), seen0, q0),
                order@.len() >= 1,
                order@.last() == node,
                search_book(g, seen@, order@, queue@, n as int, order@.len() - 1),
                layer_book(g, order@, queue@, order@.len() - 1),
                forall|t: int| 0 <= t < k ==> seen@[#[trigger] row@[t] as int],
            decreases row@.len() - k,
        {
            let x = row[k];
            assert(g[node as int][k as int] < n);
            assert(x < n);
            assert(row@.take(k + 1).drop_last() =~= row@.take(k as int));
            if !seen[x] {
                proof {
                    lemma_count_true_set(seen@, x as int);
                    lemma_layer_queue(g, seen@, order@, queue@, n as int, x, k as int);
                    lemma_book_queue(g, seen@, order@, queue@, n as int, x, k as int);
                    assert forall|t: int| 0 <= t < k implies seen@.update(x as int, true)[#[trigger] row@[t] as int] by {
                        assert(row@[t] < n);
                    }
                }
                seen.set(x, true);
                queue.push_back(x);
            }
            k = k + 1;
        }
        assert(row@.take(row@.len() as int) =~= row@);
        proof {
            lemma_book_row_done(g, seen@, order@, queue@, n as int);
            lemma_layer_row_done(g, order@, queue@);
        }
    }
    proof {
        assert(queue@ =~= Seq::<usize>::empty());
        lemma_book_end(g, seen@, order@, n as int);
        lemma_layer_end(g, order@);
    }
    order
}

/// `n` flags, of which only the first is set.
pub open spec fn only_first(n: nat) -> Seq<bool> {
    Seq::new(n, |k: int| k == 0)
}

proof fn lemma_count_true_leading(n: nat)
    requires
        n >= 1,
    ensures
        count_true(only_first(n)) == 1,
    decreases n,
{
    let s = only_first(n);
    if n > 1 {
        assert(s.drop_last() =~= only_first((n - 1) as nat));
        assert(!s.last());
        lemma_count_true_leading((n - 1) as nat);
        assert(count_true(s) == count_true(s.drop_last()));
    } else {
        assert(s.drop_last() =~= Seq::<bool>::empty());
        assert(count_true(s.drop_last()) == 0);
        assert(s.last());
    }
}

} // verus!
