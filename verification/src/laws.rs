use vstd::prelude::*;

use crate::graph::{lemma_forward_keeps_len, GraphModel};
use crate::model::BuilderModel;
use crate::operation::{
    gather, queue_reads, replay_forward, state, DiffableOperation, Entry, State,
};
use crate::tensor::Tensor;

verus! {

/// The operation settles: run again on the output it has just written, over
/// the same inputs and under any context, it writes that output again. An
/// operation that writes a function of its inputs settles; one that adds to
/// what the output slot held, or that reads a counter in the context, does
/// not.
pub open spec fn settles<T: Tensor>(op: T::DiffableOperation) -> bool {
    forall|first: T::ExecutionContext, second: T::ExecutionContext, inputs: Seq<T>, output: T|
        #![trigger op.forward_spec(second, inputs, op.forward_spec(first, inputs, output).1)]
        op.forward_spec(second, inputs, op.forward_spec(first, inputs, output).1).1
            == op.forward_spec(first, inputs, output).1
}

/// Every operation of the queue settles.
pub open spec fn all_settle<T: Tensor>(q: Seq<Entry<T::DiffableOperation>>) -> bool {
    forall|k: int| 0 <= k < q.len() ==> settles::<T>((#[trigger] q[k]).operation)
}

/// A forward replay leaves a slot as it was after the first `a` entries, if
/// no later entry writes it.
pub proof fn lemma_forward_frame<T: Tensor>(
    q: Seq<Entry<T::DiffableOperation>>,
    s: State<T>,
    a: int,
    x: int,
)
    requires
        queue_reads(q, s.slots.len() as int),
        0 <= a <= q.len(),
        0 <= x < s.slots.len(),
        forall|k: int| a <= k < q.len() ==> (#[trigger] q[k]).output != x,
    ensures
        replay_forward(q, s).slots[x] == replay_forward(q.take(a), s).slots[x],
    decreases q.len() - a,
{
    if a == q.len() {
        assert(q.take(a) =~= q);
    } else {
        let front = q.drop_last();
        lemma_forward_frame(front, s, a, x);
        assert(front.take(a) =~= q.take(a));
        lemma_forward_keeps_len(front, s);
    }
}

/// Replaying the first `k` entries once more, under any context, over the
/// slots that a full replay left, changes no slot.
proof fn lemma_replay_again<T: Tensor>(
    q: Seq<Entry<T::DiffableOperation>>,
    s: State<T>,
    ctx: T::ExecutionContext,
    k: int,
)
    requires
        queue_reads(q, s.slots.len() as int),
        crate::graph::runs_in_order(q),
        all_settle::<T>(q),
        0 <= k <= q.len(),
    ensures
        replay_forward(q.take(k), state(replay_forward(q, s).slots, ctx)).slots == replay_forward(
            q,
            s,
        ).slots,
    decreases k,
{
    let done = replay_forward(q, s);
    lemma_forward_keeps_len(q, s);
    if k > 0 {
        let e = q[k - 1];
        lemma_replay_again(q, s, ctx, k - 1);
        assert(q.take(k).drop_last() =~= q.take(k - 1));
        // The first run, just before and just after the entry: no later
        // entry writes what the entry reads, nor what it writes.
        let before = replay_forward(q.take(k - 1), s);
        let after = replay_forward(q.take(k), s);
        lemma_forward_keeps_len(q.take(k - 1), s);
        assert(gather(done.slots, e.inputs) =~= gather(before.slots, e.inputs)) by {
            assert forall|j: int| 0 <= j < e.inputs.len() implies done.slots[e.inputs[j]]
                == before.slots[e.inputs[j]] by {
                let x = e.inputs[j];
                lemma_forward_frame(q, s, k - 1, x);
            }
        }
        assert(done.slots[e.output] == after.slots[e.output]) by {
            lemma_forward_frame(q, s, k, e.output);
        }
    }
}

/// Forward passes are idempotent where the operations settle: a second pass
/// right after the first leaves every slot as the first left it, and reports
/// the same scalar.
pub proof fn lemma_forward_twice<T: Tensor>(g: GraphModel<T>)
    requires
        g.wf(),
        all_settle::<T>(g.forward),
    ensures
        g.after_forward().after_forward().slots == g.after_forward().slots,
        g.after_forward().forward_value() == g.forward_value(),
{
    let once = replay_forward(g.forward, g.state());
    lemma_replay_again(g.forward, g.state(), once.ctx, g.forward.len() as int);
    assert(g.forward.take(g.forward.len() as int) =~= g.forward);
}

/// A forward pass writes the results of operations and nothing else: a slot
/// that no entry writes, such as the slot of an input or a weight, holds
/// after the pass what it held before.
pub proof fn lemma_forward_keeps_unwritten<T: Tensor>(g: GraphModel<T>, x: int)
    requires
        g.wf(),
        0 <= x < g.slots.len(),
        forall|k: int| 0 <= k < g.forward.len() ==> (#[trigger] g.forward[k]).output != x,
    ensures
        g.after_forward().slots[x] == g.slots[x],
{
    lemma_forward_frame(g.forward, g.state(), 0, x);
}

/// A builder whose one root is the result of an operation compiles.
pub proof fn lemma_result_root_compiles<T: Tensor>(m: BuilderModel<T>)
    requires
        m.wf(),
        exists|r: int| m.is_sole_root(r),
        m.nodes[m.sole_root()].operation is Some,
    ensures
        m.build_rejection() is None,
{
}

/// On the way forward, a slot is written before it is read: the entry that
/// computes a node runs before every entry that reads the node.
pub proof fn lemma_written_before_read<T: Tensor>(g: GraphModel<T>, j: int, k: int)
    requires
        g.wf(),
        0 <= j < g.forward.len(),
        0 <= k < g.forward.len(),
        g.forward[k].inputs.contains(g.forward[j].output),
    ensures
        j < k,
{
}

/// On the way back, the gradient of a node is complete before it is handed
/// on: every entry that adds to the gradient of a node runs before the entry
/// that computes the node, which hands the gradient on to what the node reads.
pub proof fn lemma_gradient_complete_before_use<T: Tensor>(g: GraphModel<T>, j: int, k: int)
    requires
        g.wf(),
        0 <= j < g.backward.len(),
        0 <= k < g.backward.len(),
        g.backward[j].inputs.contains(g.backward[k].output),
    ensures
        j < k,
{
    let n = g.forward.len() as int;
    lemma_written_before_read(g, n - 1 - k, n - 1 - j);
}

/// A compiled graph runs backward in the exact reverse of its forward order.
pub proof fn lemma_backward_reverses<T: Tensor>(g: GraphModel<T>)
    requires
        g.wf(),
    ensures
        g.backward.len() == g.forward.len(),
        forall|k: int|
            0 <= k < g.forward.len() ==> #[trigger] g.backward[k] == g.forward[g.forward.len() - 1 - k],
{
}

} // verus!
