use vstd::prelude::*;

use crate::graph::runs_in_order;
use crate::model::{written_before, BuilderModel};
use crate::operation::queue_fits;
use crate::tensor::Tensor;
use crate::topology::is_topological_order;

verus! {

/// The queue of two orders, one behind the other, is the two queues one
/// behind the other.
pub(crate) proof fn lemma_entries_concat<T: Tensor>(m: BuilderModel<T>, a: Seq<int>, b: Seq<int>)
    ensures
        m.entries(a + b) == m.entries(a) + m.entries(b),
    decreases b.len(),
{
    if b.len() > 0 {
        assert((a + b).drop_last() =~= a + b.drop_last());
        lemma_entries_concat(m, a, b.drop_last());
    }
}

/// What holds of the queue of the first `i` nodes of a topological order.
spec fn scheduled_prefix<T: Tensor>(m: BuilderModel<T>, order: Seq<int>, i: int) -> bool {
    let q = m.entries(order.take(i));
    let seen = order.take(i);
    &&& forall|k: int| 0 <= k < q.len() ==> m.is_step(#[trigger] q[k]) && seen.contains(q[k].output)
    &&& forall|x: int|
        #[trigger] seen.contains(x) && m.nodes[x].operation is Some ==> written_before(
            q,
            q.len() as int,
            x,
        )
    &&& forall|k: int, a: int|
        0 <= k < q.len() && 0 <= a < q[k].inputs.len() && m.nodes[q[k].inputs[a]].operation is Some
            ==> written_before(q, k, #[trigger] q[k].inputs[a])
    &&& runs_in_order(q)
}

/// Each prefix of a topological order gives a queue that can run.
proof fn lemma_scheduled_prefix<T: Tensor>(m: BuilderModel<T>, order: Seq<int>, i: int)
    requires
        m.wf(),
        is_topological_order(m.parents(), order),
        0 <= i <= order.len(),
    ensures
        scheduled_prefix(m, order, i),
    decreases i,
{
    let q = m.entries(order.take(i));
    let seen = order.take(i);
    if i > 0 {
        // The queue so far is that of the nodes before `v`, with the entry of
        // `v` behind it if an operation computes `v`. Whatever `v` reads
        // stands before it, and `v` stands nowhere before.
        lemma_scheduled_prefix(m, order, i - 1);
        let before = order.take(i - 1);
        let q0 = m.entries(before);
        let v = order[i - 1];
        assert(seen.drop_last() =~= before);
        assert(forall|x: int| seen.contains(x) <==> before.contains(x) || x == v);
        assert(m.parents()[v] == m.nodes[v].parents);
        if m.nodes[v].operation is Some {
            assert(q[q0.len() as int] == m.step(v));
            assert forall|x: int| #[trigger]
                seen.contains(x) && m.nodes[x].operation is Some implies written_before(
                q,
                q.len() as int,
                x,
            ) by {
                if x != v {
                    let j = choose|j: int| 0 <= j < q0.len() && (#[trigger] q0[j]).output == x;
                    assert(q[j].output == x);
                }
            }
        }
    }
}

/// The queue of a topological order is a schedule that respects the access
/// discipline.
pub(crate) proof fn lemma_schedule<T: Tensor>(m: BuilderModel<T>, order: Seq<int>)
    requires
        m.wf(),
        is_topological_order(m.parents(), order),
    ensures
        m.schedules(m.entries(order)),
        queue_fits(m.entries(order), m.nodes.len() as int),
{
    let q = m.entries(order);
    lemma_scheduled_prefix(m, order, order.len() as int);
    assert(order.take(order.len() as int) =~= order);
    assert forall|v: int|
        0 <= v < m.nodes.len() && (#[trigger] m.nodes[v]).operation is Some implies written_before(
        q,
        q.len() as int,
        v,
    ) by {
        assert(order.contains(v));
    }
}

} // verus!
