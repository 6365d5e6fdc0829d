use vstd::prelude::*;

use crate::topology::is_topological_order;

verus! {

/// The node at position `i` of `order` became ready at `t`: it reads nothing
/// and `t` is -1, or `t` is the position of the last of the nodes it reads.
pub open spec fn ready_at(parents: Seq<Seq<int>>, order: Seq<int>, i: int, t: int) -> bool {
    let ps = parents[order[i]];
    if ps.len() == 0 {
        t == -1
    } else {
        &&& 0 <= t < order.len()
        &&& ps.contains(order[t])
        &&& forall|k: int| 0 <= k < ps.len() ==> order.take(t + 1).contains(#[trigger] ps[k])
    }
}

/// The nodes stand in the order in which they became ready, and those that
/// became ready together stand by ascending position in the graph.
pub open spec fn first_come_first_out(parents: Seq<Seq<int>>, order: Seq<int>) -> bool {
    forall|i: int, j: int, s: int, t: int|
        0 <= i < j < order.len() && #[trigger] ready_at(parents, order, i, s) && #[trigger] ready_at(
            parents,
            order,
            j,
            t,
        ) ==> s < t || (s == t && order[i] < order[j])
}

/// The order of a sweep that serves its frontier first come, first out.
pub open spec fn sweep_order(parents: Seq<Seq<int>>) -> Seq<int> {
    choose|order: Seq<int>|
        is_topological_order(parents, order) && first_come_first_out(parents, order)
}

/// When a node stands in two orders behind the same nodes, it became ready at
/// the same position in both.
proof fn lemma_ready_carries(
    parents: Seq<Seq<int>>,
    a: Seq<int>,
    b: Seq<int>,
    i: int,
    j: int,
    s: int,
    n: int,
)
    requires
        a.no_duplicates(),
        0 <= i < a.len(),
        0 <= j < b.len(),
        a[i] == b[j],
        0 <= n <= i,
        n <= j,
        a.take(n) == b.take(n),
        forall|k: int|
            0 <= k < parents[a[i]].len() ==> a.take(n).contains(#[trigger] parents[a[i]][k]),
        ready_at(parents, a, i, s),
    ensures
        ready_at(parents, b, j, s),
        s < n,
{
}

/// Among the first `m` of the nodes in `ps`, all of which stand in `order`,
/// the one that stands last stands at `t`; -1 where `m` is zero.
spec fn last_among(ps: Seq<int>, order: Seq<int>, m: int, t: int) -> bool {
    if m == 0 {
        t == -1
    } else {
        &&& 0 <= t < order.len()
        &&& ps.take(m).contains(order[t])
        &&& forall|k: int| 0 <= k < m ==> order.take(t + 1).contains(#[trigger] ps[k])
    }
}

/// Some one of the first `m` nodes stands last.
proof fn lemma_last_among(ps: Seq<int>, order: Seq<int>, m: int) -> (t: int)
    requires
        0 <= m <= ps.len(),
        forall|k: int| 0 <= k < ps.len() ==> order.contains(#[trigger] ps[k]),
    ensures
        last_among(ps, order, m, t),
    decreases m,
{
    if m == 0 {
        -1
    } else {
        let r = lemma_last_among(ps, order, m - 1);
        let x = ps[m - 1];
        let z = choose|z: int| 0 <= z < order.len() && order[z] == x;
        let t = if r < z {
            z
        } else {
            r
        };
        assert(ps.take(m)[m - 1] == x);
        let upto = order.take(t + 1);
        assert(upto[z] == x);
        t
    }
}

/// Every node of a topological order became ready at some position.
proof fn lemma_ready_exists(parents: Seq<Seq<int>>, order: Seq<int>, i: int) -> (t: int)
    requires
        is_topological_order(parents, order),
        0 <= i < order.len(),
    ensures
        ready_at(parents, order, i, t),
{
    let ps = parents[order[i]];
    let t = lemma_last_among(ps, order, ps.len() as int);
    t
}

/// Two topological orders that are both first come, first out agree on their
/// first `n` nodes.
proof fn lemma_same_prefix(parents: Seq<Seq<int>>, a: Seq<int>, b: Seq<int>, n: int)
    requires
        is_topological_order(parents, a),
        first_come_first_out(parents, a),
        is_topological_order(parents, b),
        first_come_first_out(parents, b),
        0 <= n <= parents.len(),
    ensures
        a.take(n) == b.take(n),
    decreases n,
{
    if n > 0 {
        let i = n - 1;
        lemma_same_prefix(parents, a, b, i);
        let x = a[i];
        let y = b[i];
        let shared = a.take(i);
        if x != y {
            // `y` stands later in `a`, and `x` later in `b`, yet each became
            // ready at the same position in both orders: one of the two
            // orders has the pair the wrong way round.
            assert(a.contains(y));
            let j = choose|j: int| 0 <= j < a.len() && a[j] == y;
            if j < i {
                assert(shared[j] == y);
            }
            assert(b.contains(x));
            let h = choose|h: int| 0 <= h < b.len() && b[h] == x;
            if h < i {
                assert(b.take(i)[h] == x);
            }
            let s = lemma_ready_exists(parents, a, i);
            let t = lemma_ready_exists(parents, b, i);
            lemma_ready_carries(parents, a, b, i, h, s, i);
            lemma_ready_carries(parents, b, a, i, j, t, i);
        }
    }
}

/// There is one topological order that is first come, first out: whatever
/// has both properties is the order of the sweep.
pub proof fn lemma_sweep_order_unique(parents: Seq<Seq<int>>, order: Seq<int>)
    requires
        is_topological_order(parents, order),
        first_come_first_out(parents, order),
    ensures
        order == sweep_order(parents),
{
    let other = sweep_order(parents);
    lemma_same_prefix(parents, order, other, parents.len() as int);
    assert(order.take(order.len() as int) =~= order);
}

} // verus!
