use vstd::prelude::*;

use crate::arrival::{first_come_first_out, ready_at};
use crate::topology::{
    edges_ascend, is_topological_order, lemma_cover_len, parents_first, reads_once,
};

verus! {

/// How many of `ps` are not among `done`: the in-degree that is left of a
/// node with parents `ps` once the nodes of `done` were removed.
pub open spec fn pending(ps: Seq<int>, done: Seq<int>) -> nat
    decreases ps.len(),
{
    if ps.len() == 0 {
        0
    } else {
        pending(ps.drop_last(), done) + if done.contains(ps.last()) {
            0nat
        } else {
            1nat
        }
    }
}

/// Before any node is removed, the whole in-degree is left.
pub(crate) proof fn lemma_pending_start(ps: Seq<int>)
    ensures
        pending(ps, Seq::empty()) == ps.len(),
    decreases ps.len(),
{
    if ps.len() > 0 {
        lemma_pending_start(ps.drop_last());
    }
}

/// Nothing is left exactly when every parent was removed.
pub(crate) proof fn lemma_pending_zero(ps: Seq<int>, done: Seq<int>)
    ensures
        pending(ps, done) == 0 <==> forall|k: int| 0 <= k < ps.len() ==> done.contains(#[trigger] ps[k]),
    decreases ps.len(),
{
    if ps.len() > 0 {
        let front = ps.drop_last();
        lemma_pending_zero(front, done);
        if pending(ps, done) == 0 {
            assert forall|k: int| 0 <= k < ps.len() implies done.contains(#[trigger] ps[k]) by {
                if k < front.len() {
                    assert(front[k] == ps[k]);
                }
            }
        }
    }
}

/// Removing one more node takes one off what is left of the nodes that read
/// it, and nothing off the others.
pub(crate) proof fn lemma_pending_push(ps: Seq<int>, done: Seq<int>, u: int)
    requires
        ps.no_duplicates(),
        !done.contains(u),
    ensures
        pending(ps, done) == pending(ps, done.push(u)) + if ps.contains(u) {
            1nat
        } else {
            0nat
        },
    decreases ps.len(),
{
    let more = done.push(u);
    assert(more[done.len() as int] == u);
    assert forall|x: int| more.contains(x) <==> done.contains(x) || x == u by {
        if done.contains(x) {
            let i = choose|i: int| 0 <= i < done.len() && done[i] == x;
            assert(more[i] == x);
        }
    }
    if ps.len() > 0 {
        let front = ps.drop_last();
        let last = ps.last();
        lemma_pending_push(front, done, u);
        assert(ps.contains(u) <==> front.contains(u) || last == u) by {
            if front.contains(u) {
                let i = choose|i: int| 0 <= i < front.len() && front[i] == u;
                assert(ps[i] == u);
            }
            if ps.contains(u) && last != u {
                let i = choose|i: int| 0 <= i < ps.len() && ps[i] == u;
                assert(front[i] == u);
            }
        }
    }
}

/// While the successor lists are filled, node by node and parent by parent:
/// `c` is a node that reads `p`, and the filling, which stands at the first
/// `k` parents of node `v`, has come past that edge.
pub open spec fn reads_so_far(parents: Seq<Seq<int>>, c: int, p: int, v: int, k: int) -> bool {
    &&& 0 <= c < parents.len()
    &&& if c < v {
        parents[c].contains(p)
    } else {
        c == v && parents[c].take(k).contains(p)
    }
}

/// `readers[p]` lists, once each and in ascending order, the nodes that read
/// `p`, as far as the filling has come. With `v` at the number of nodes the
/// lists are complete.
pub open spec fn lists_readers(parents: Seq<Seq<int>>, readers: Seq<Seq<int>>, v: int, k: int) -> bool {
    &&& readers.len() == parents.len()
    &&& forall|p: int| 0 <= p < readers.len() ==> (#[trigger] readers[p]).no_duplicates()
    &&& forall|p: int, a: int, b: int|
        0 <= p < readers.len() && 0 <= a < b < readers[p].len() ==> #[trigger] readers[p][a]
            < #[trigger] readers[p][b]
    &&& forall|p: int, c: int|
        0 <= p < readers.len() ==> (#[trigger] readers[p].contains(c) <==> reads_so_far(
            parents,
            c,
            p,
            v,
            k,
        ))
}

/// The filling comes past one more edge: node `v` joins the readers of its
/// parent number `k`.
pub(crate) proof fn lemma_readers_join(parents: Seq<Seq<int>>, readers: Seq<Seq<int>>, v: int, k: int)
    requires
        reads_once(parents),
        0 <= v < parents.len(),
        0 <= k < parents[v].len(),
        0 <= parents[v][k] < parents.len(),
        lists_readers(parents, readers, v, k),
    ensures
        lists_readers(
            parents,
            readers.update(parents[v][k], readers[parents[v][k]].push(v)),
            v,
            k + 1,
        ),
{
    let p = parents[v][k];
    let list = readers[p];
    let longer = list.push(v);
    let filled = readers.update(p, longer);
    let more = parents[v].take(k + 1);
    assert(more[k] == p);
    assert(longer[list.len() as int] == v);
    assert forall|c: int| longer.contains(c) <==> list.contains(c) || c == v by {
        if list.contains(c) {
            let i = choose|i: int| 0 <= i < list.len() && list[i] == c;
            assert(longer[i] == c);
        }
    }
    assert forall|q: int, a: int, b: int|
        0 <= q < filled.len() && 0 <= a < b < filled[q].len() implies #[trigger] filled[q][a]
        < #[trigger] filled[q][b] by {
        if q == p && b == list.len() {
            assert(list.contains(list[a]));
        }
    }
}

/// Past the last parent of a node, the filling stands at the next node.
pub(crate) proof fn lemma_readers_next(parents: Seq<Seq<int>>, readers: Seq<Seq<int>>, v: int)
    requires
        0 <= v < parents.len(),
        lists_readers(parents, readers, v, parents[v].len() as int),
    ensures
        lists_readers(parents, readers, v + 1, 0),
{
    assert(parents[v].take(parents[v].len() as int) =~= parents[v]);
}

/// The state of a sweep. `order` holds the nodes that left the frontier,
/// which are its first `head` entries, and behind them the frontier itself.
/// `left[v]` is what is left of the in-degree of `v`; a node stands in `order`
/// exactly when nothing is left. While the node at `head` leaves the frontier,
/// `touched` lists those of its readers whose count was taken down already.
pub open spec fn swept(
    parents: Seq<Seq<int>>,
    order: Seq<int>,
    head: int,
    left: Seq<int>,
    touched: Seq<int>,
) -> bool {
    &&& 0 <= head <= order.len()
    &&& left.len() == parents.len()
    &&& order.no_duplicates()
    &&& forall|i: int| 0 <= i < order.len() ==> 0 <= #[trigger] order[i] < parents.len()
    &&& parents_first(parents, order)
    &&& forall|v: int| 0 <= v < parents.len() ==> (order.contains(v) <==> #[trigger] left[v] == 0)
    &&& forall|v: int|
        0 <= v < parents.len() ==> #[trigger] left[v] == pending(
            parents[v],
            order.take(
                if touched.contains(v) {
                    head + 1
                } else {
                    head
                },
            ),
        )
}

/// The frontier of a sweep is in order. No node became ready later than at
/// `head`, the position of the node that leaves the frontier, and those that
/// became ready there are among `touched`.
pub open spec fn queued(parents: Seq<Seq<int>>, order: Seq<int>, head: int, touched: Seq<int>) -> bool {
    &&& first_come_first_out(parents, order)
    &&& forall|i: int, s: int|
        0 <= i < order.len() && #[trigger] ready_at(parents, order, i, s) ==> s <= head && (s
            == head ==> touched.contains(order[i]))
}

/// Seeding the frontier with the nodes that read nothing starts a sweep.
pub(crate) proof fn lemma_sweep_start(parents: Seq<Seq<int>>, order: Seq<int>, left: Seq<int>)
    requires
        left.len() == parents.len(),
        order.no_duplicates(),
        forall|i: int| 0 <= i < order.len() ==> 0 <= #[trigger] order[i] < parents.len(),
        forall|v: int| 0 <= v < parents.len() ==> #[trigger] left[v] == parents[v].len(),
        forall|v: int| 0 <= v < parents.len() ==> (order.contains(v) <==> #[trigger] left[v] == 0),
    ensures
        swept(parents, order, 0, left, Seq::empty()),
{
    assert forall|v: int| 0 <= v < parents.len() implies #[trigger] left[v] == pending(
        parents[v],
        order.take(0),
    ) by {
        lemma_pending_start(parents[v]);
        assert(order.take(0) =~= Seq::<int>::empty());
    }
    assert forall|i: int, k: int|
        0 <= i < order.len() && 0 <= k < parents[order[i]].len() implies order.take(i).contains(
        #[trigger] parents[order[i]][k],
    ) by {
        assert(left[order[i]] == 0);
    }
}

/// Taking down the count of one reader of the node that leaves the frontier,
/// and adding the reader to the frontier when nothing is left of it, keeps
/// the sweep's state.
pub(crate) proof fn lemma_sweep_touch(
    parents: Seq<Seq<int>>,
    readers: Seq<Seq<int>>,
    order: Seq<int>,
    head: int,
    left: Seq<int>,
    j: int,
)
    requires
        reads_once(parents),
        lists_readers(parents, readers, parents.len() as int, 0),
        0 <= head < order.len(),
        0 <= j < readers[order[head]].len(),
        swept(parents, order, head, left, readers[order[head]].take(j)),
    ensures
        ({
            let c = readers[order[head]][j];
            let fewer = left.update(c, left[c] - 1);
            let touched = readers[order[head]].take(j + 1);
            &&& 0 <= c < parents.len()
            &&& parents[c].contains(order[head])
            &&& left[c] >= 1
            &&& left[c] == 1 ==> forall|k: int|
                0 <= k < parents[c].len() ==> order.take(head + 1).contains(#[trigger] parents[c][k])
            &&& left[c] == 1 ==> !order.contains(c) && swept(
                parents,
                order.push(c),
                head,
                fewer,
                touched,
            )
            &&& left[c] > 1 ==> swept(parents, order, head, fewer, touched)
        }),
{
    let u = order[head];
    let c = readers[u][j];
    let touched = readers[u].take(j + 1);
    let done = order.take(head);
    let more = order.take(head + 1);
    assert(readers[u].contains(c));
    assert(more =~= done.push(u));
    lemma_pending_push(parents[c], done, u);
    assert(touched[j] == c);
    if left[c] == 1 {
        let longer = order.push(c);
        lemma_pending_zero(parents[c], more);
        assert(longer.take(head) =~= done);
        assert(longer.take(head + 1) =~= more);
        assert(longer[order.len() as int] == c);
        assert forall|v: int| longer.contains(v) <==> order.contains(v) || v == c by {
            if order.contains(v) {
                let i = choose|i: int| 0 <= i < order.len() && order[i] == v;
                assert(longer[i] == v);
            }
            if longer.contains(v) && v != c {
                let i = choose|i: int| 0 <= i < longer.len() && longer[i] == v;
                assert(order[i] == v);
            }
        }
        assert(parents_first(parents, longer)) by {
            assert forall|i: int, k: int|
                0 <= i < longer.len() && 0 <= k < parents[longer[i]].len() implies longer.take(
                i,
            ).contains(#[trigger] parents[longer[i]][k]) by {
                if i < order.len() {
                    assert(longer.take(i) =~= order.take(i));
                }
            }
        }
    }
}

/// What held of a node's readiness in an order with one more node at its end
/// held before that node joined.
proof fn lemma_ready_shorter(parents: Seq<Seq<int>>, order: Seq<int>, c: int, i: int, s: int)
    requires
        order.push(c).no_duplicates(),
        parents_first(parents, order),
        0 <= i < order.len(),
        ready_at(parents, order.push(c), i, s),
    ensures
        ready_at(parents, order, i, s),
{
    let longer = order.push(c);
    let ps = parents[order[i]];
    if ps.len() > 0 {
        let early = order.take(i);
        let z = choose|z: int| 0 <= z < early.len() && early[z] == longer[s];
        assert(longer[z] == longer[s]);
        assert(longer.take(s + 1) =~= order.take(s + 1));
    }
}

/// One more reader of the node that leaves the frontier was looked at, and
/// joined the frontier if `joins`: the frontier stays in order.
pub(crate) proof fn lemma_queue_touch(
    parents: Seq<Seq<int>>,
    readers: Seq<Seq<int>>,
    order: Seq<int>,
    head: int,
    j: int,
    joins: bool,
)
    requires
        lists_readers(parents, readers, parents.len() as int, 0),
        0 <= head < order.len(),
        0 <= order[head] < parents.len(),
        0 <= j < readers[order[head]].len(),
        order.no_duplicates(),
        parents_first(parents, order),
        queued(parents, order, head, readers[order[head]].take(j)),
        joins ==> ({
            let c = readers[order[head]][j];
            &&& order.push(c).no_duplicates()
            &&& parents[c].contains(order[head])
            &&& forall|k: int|
                0 <= k < parents[c].len() ==> order.take(head + 1).contains(#[trigger] parents[c][k])
        }),
    ensures
        queued(
            parents,
            if joins {
                order.push(readers[order[head]][j])
            } else {
                order
            },
            head,
            readers[order[head]].take(j + 1),
        ),
{
    let u = order[head];
    let c = readers[u][j];
    let touched = readers[u].take(j + 1);
    assert(touched[j] == c);
    if joins {
        let longer = order.push(c);
        let top = order.len() as int;
        assert forall|i: int, s: int|
            0 <= i < longer.len() && #[trigger] ready_at(parents, longer, i, s) implies s <= head
            && (s == head ==> touched.contains(longer[i])) by {
            if i < top {
                lemma_ready_shorter(parents, order, c, i, s);
            }
        }
        assert forall|a: int, b: int, s: int, t: int|
            0 <= a < b < longer.len() && #[trigger] ready_at(parents, longer, a, s)
                && #[trigger] ready_at(parents, longer, b, t) implies s < t || (s == t && longer[a]
            < longer[b]) by {
            lemma_ready_shorter(parents, order, c, a, s);
            if b < top {
                lemma_ready_shorter(parents, order, c, b, t);
            }
        }
    }
}

/// Once the counts of all its readers were taken down, the node at `head` has
/// left the frontier.
pub(crate) proof fn lemma_sweep_advance(
    parents: Seq<Seq<int>>,
    readers: Seq<Seq<int>>,
    order: Seq<int>,
    head: int,
    left: Seq<int>,
)
    requires
        reads_once(parents),
        lists_readers(parents, readers, parents.len() as int, 0),
        0 <= head < order.len(),
        swept(parents, order, head, left, readers[order[head]]),
    ensures
        swept(parents, order, head + 1, left, Seq::empty()),
{
    let u = order[head];
    let done = order.take(head);
    let more = order.take(head + 1);
    assert(more =~= done.push(u));
    assert forall|v: int| 0 <= v < parents.len() implies #[trigger] left[v] == pending(
        parents[v],
        more,
    ) by {
        if !readers[u].contains(v) {
            lemma_pending_push(parents[v], done, u);
        }
    }
}

/// In a graph whose edges ascend, a sweep whose frontier is used up has taken
/// every node.
proof fn lemma_sweep_takes(parents: Seq<Seq<int>>, order: Seq<int>, left: Seq<int>, v: int)
    requires
        edges_ascend(parents),
        swept(parents, order, order.len() as int, left, Seq::empty()),
        0 <= v < parents.len(),
    ensures
        order.contains(v),
    decreases v,
{
    let done = order.take(order.len() as int);
    assert(done =~= order);
    assert forall|k: int| 0 <= k < parents[v].len() implies done.contains(#[trigger] parents[v][k]) by {
        lemma_sweep_takes(parents, order, left, parents[v][k]);
    }
    lemma_pending_zero(parents[v], done);
    assert(left[v] == 0);
}

/// In a graph whose edges ascend, a sweep whose frontier is used up leaves a
/// topological order: the frontier cannot run dry while nodes remain.
pub(crate) proof fn lemma_sweep_done(parents: Seq<Seq<int>>, order: Seq<int>, left: Seq<int>)
    requires
        edges_ascend(parents),
        swept(parents, order, order.len() as int, left, Seq::empty()),
    ensures
        is_topological_order(parents, order),
{
    assert forall|v: int| 0 <= v < parents.len() implies order.contains(v) by {
        lemma_sweep_takes(parents, order, left, v);
    }
    lemma_cover_len(order, parents.len() as int);
}

} // verus!
