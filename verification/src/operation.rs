use vstd::prelude::*;

use crate::graph_builder::{indices, Node};
use crate::tensor::Tensor;

verus! {

/// The capabilities the engine needs from one computation step.
///
/// `T` is the value type, `Ctx` the execution context and `Desc` the
/// descriptor type. As with [`Tensor`], each method is paired with a model
/// function that names its outcome, and the engine takes on trust that the
/// outcome depends on the arguments alone: for `forward` and `backward`, on
/// the context, the slots lent shared and the slots lent exclusive, as they
/// are when the call is made.
pub trait DiffableOperation<T, Ctx, Desc>: Sized + core::fmt::Debug {
    /// What `output_tensor` answers for a list of input descriptors.
    open spec fn output_tensor_spec(&self, inputs: Seq<Desc>) -> Result<Desc, String> {
        arbitrary()
    }

    /// Checks arity and shapes of the inputs before any value exists, and
    /// gives the descriptor of the result or a text that says what is wrong.
    fn output_tensor(&self, inputs: &[Desc]) -> (r: Result<Desc, String>)
        ensures
            r == self.output_tensor_spec(inputs@),
    ;

    /// The context and the output slot that `forward` leaves behind.
    open spec fn forward_spec(&self, ctx: Ctx, inputs: Seq<T>, output: T) -> (Ctx, T) {
        arbitrary()
    }

    /// Computes the output value from the input values.
    fn forward(&self, ctx: &mut Ctx, inputs: &[&T], output: &mut T)
        ensures
            (*final(ctx), *final(output)) == self.forward_spec(
                *old(ctx),
                pointees(inputs@),
                *old(output),
            ),
    ;

    /// The context and the input slots that `backward` leaves behind.
    open spec fn backward_spec(&self, ctx: Ctx, output: T, inputs: Seq<T>) -> (Ctx, Seq<T>) {
        arbitrary()
    }

    /// Adds to the gradient of each input what the output's value and gradient
    /// contribute to it.
    fn backward(&self, ctx: &mut Ctx, output: &T, inputs: &mut [T])
        ensures
            final(inputs)@.len() == old(inputs)@.len(),
            (*final(ctx), final(inputs)@) == self.backward_spec(*old(ctx), *output, old(inputs)@),
    ;
}

/// The values behind a list of shared references.
pub open spec fn pointees<T>(refs: Seq<&T>) -> Seq<T> {
    refs.map_values(|r: &T| *r)
}

/// One step of a queue as contracts see it: the operation, the slots it
/// reads on the way forward, and the slot it writes.
pub struct Entry<F> {
    pub operation: F,
    pub inputs: Seq<int>,
    pub output: int,
}

/// One step of a queue.
#[derive(Debug)]
pub struct OperationPayload<F> {
    operation: F,
    inputs: Vec<Node>,
    output: Node,
}

impl<F> View for OperationPayload<F> {
    type V = Entry<F>;

    closed spec fn view(&self) -> Entry<F> {
        Entry { operation: self.operation, inputs: indices(self.inputs@), output: self.output@ }
    }
}

/// An ordered list of steps, replayed front to back. `BACKWARD` tells which of
/// an operation's two functions a replay calls.
#[derive(Debug)]
pub struct OperationQueue<T: Tensor, const BACKWARD: bool> {
    queue: Vec<OperationPayload<T::DiffableOperation>>,
}

impl<T: Tensor, const BACKWARD: bool> View for OperationQueue<T, BACKWARD> {
    type V = Seq<Entry<T::DiffableOperation>>;

    closed spec fn view(&self) -> Seq<Entry<T::DiffableOperation>> {
        self.queue@.map_values(|p: OperationPayload<T::DiffableOperation>| p@)
    }
}

/// What a replay works on: the slots, one per node, and the context.
pub struct State<T: Tensor> {
    pub slots: Seq<T>,
    pub ctx: T::ExecutionContext,
}

/// The state made of these slots and this context.
pub open spec fn state<T: Tensor>(slots: Seq<T>, ctx: T::ExecutionContext) -> State<T> {
    State { slots, ctx }
}

/// An entry can run forward over `n` slots: every slot it names exists, and
/// its output, which is lent exclusive, is none of its inputs, which are lent
/// shared.
pub open spec fn entry_reads<F>(e: Entry<F>, n: int) -> bool {
    &&& 0 <= e.output < n
    &&& forall|j: int|
        0 <= j < e.inputs.len() ==> 0 <= #[trigger] e.inputs[j] < n && e.inputs[j] != e.output
}

/// An entry respects the access discipline over `n` slots, and so can run
/// both ways: it can run forward, and no slot is named twice among its
/// inputs, each of which is lent exclusive on the way back.
pub open spec fn entry_fits<F>(e: Entry<F>, n: int) -> bool {
    entry_reads(e, n) && e.inputs.no_duplicates()
}

/// Every entry of the queue can run forward over `n` slots.
pub open spec fn queue_reads<F>(q: Seq<Entry<F>>, n: int) -> bool {
    forall|k: int| 0 <= k < q.len() ==> entry_reads(#[trigger] q[k], n)
}

/// Every entry of the queue respects the access discipline over `n` slots.
pub open spec fn queue_fits<F>(q: Seq<Entry<F>>, n: int) -> bool {
    forall|k: int| 0 <= k < q.len() ==> entry_fits(#[trigger] q[k], n)
}

/// The slots at the positions `inputs`, in that order.
pub open spec fn gather<T>(slots: Seq<T>, inputs: Seq<int>) -> Seq<T> {
    Seq::new(inputs.len(), |j: int| slots[inputs[j]])
}

/// The slots after each position of `inputs` received the value listed for it.
pub open spec fn scatter<T>(slots: Seq<T>, inputs: Seq<int>, vals: Seq<T>) -> Seq<T> {
    Seq::new(
        slots.len(),
        |i: int|
            if inputs.contains(i) {
                vals[inputs.index_of(i)]
            } else {
                slots[i]
            },
    )
}

/// The state after one entry ran forward: its output slot is rewritten.
pub open spec fn forward_step<T: Tensor>(s: State<T>, e: Entry<T::DiffableOperation>) -> State<T> {
    let r = e.operation.forward_spec(s.ctx, gather(s.slots, e.inputs), s.slots[e.output]);
    State { slots: s.slots.update(e.output, r.1), ctx: r.0 }
}

/// The state after one entry ran backward: its input slots are rewritten.
pub open spec fn backward_step<T: Tensor>(s: State<T>, e: Entry<T::DiffableOperation>) -> State<T> {
    let r = e.operation.backward_spec(s.ctx, s.slots[e.output], gather(s.slots, e.inputs));
    State { slots: scatter(s.slots, e.inputs, r.1), ctx: r.0 }
}

/// The state after every entry of `q` ran forward, front to back.
pub open spec fn replay_forward<T: Tensor>(q: Seq<Entry<T::DiffableOperation>>, s: State<T>) -> State<T>
    decreases q.len(),
{
    if q.len() == 0 {
        s
    } else {
        forward_step(replay_forward(q.drop_last(), s), q.last())
    }
}

/// The state after every entry of `q` ran backward, front to back.
pub open spec fn replay_backward<T: Tensor>(q: Seq<Entry<T::DiffableOperation>>, s: State<T>) -> State<T>
    decreases q.len(),
{
    if q.len() == 0 {
        s
    } else {
        backward_step(replay_backward(q.drop_last(), s), q.last())
    }
}

impl<F> OperationPayload<F> {
    /// The operation of this step.
    pub fn operation(&self) -> (op: &F)
        ensures
            *op == self@.operation,
    {
        &self.operation
    }

    /// The nodes this step reads on the way forward.
    pub fn inputs(&self) -> (nodes: &[Node])
        ensures
            indices(nodes@) == self@.inputs,
    {
        self.inputs.as_slice()
    }

    /// The node this step writes on the way forward.
    pub fn output(&self) -> (node: Node)
        ensures
            node@ == self@.output,
    {
        self.output
    }
}

impl<T: Tensor, const BACKWARD: bool> OperationQueue<T, BACKWARD> {
    /// An empty queue.
    pub fn new() -> (q: Self)
        ensures
            q@ == Seq::<Entry<T::DiffableOperation>>::empty(),
    {
        let q = Self { queue: Vec::new() };
        q
    }

    /// Appends one step.
    pub fn push(&mut self, operation: T::DiffableOperation, inputs: &[Node], output: Node)
        ensures
            final(self)@ == old(self)@.push(
                Entry { operation, inputs: indices(inputs@), output: output@ },
            ),
    {
        self.queue.push(OperationPayload { operation, inputs: vstd::slice::slice_to_vec(inputs), output });
    }

    /// The number of steps.
    pub fn len(&self) -> (n: usize)
        ensures
            n == self@.len(),
    {
        self.queue.len()
    }

    /// The step at position `k`, if there is one.
    pub fn get(&self, k: usize) -> (entry: Option<&OperationPayload<T::DiffableOperation>>)
        ensures
            k < self@.len() ==> entry is Some && entry->Some_0@ == self@[k as int],
            k >= self@.len() ==> entry is None,
    {
        if k < self.queue.len() {
            Some(&self.queue[k])
        } else {
            None
        }
    }
}

/// Runs one entry forward: its inputs are lent shared, its output exclusive.
fn forward_entry<T: Tensor>(
    entry: &OperationPayload<T::DiffableOperation>,
    ctx: &mut T::ExecutionContext,
    graph: &mut [T],
)
    requires
        entry_reads(entry@, old(graph)@.len() as int),
    ensures
        state::<T>(final(graph)@, *final(ctx)) == forward_step::<T>(
            state(old(graph)@, *old(ctx)),
            entry@,
        ),
{
    let ghost before = graph@;
    let target: usize = entry.output.index();
    let mut output = T::default();
    core::mem::swap(&mut output, &mut graph[target]);
    let mut inputs: Vec<&T> = Vec::new();
    let mut j: usize = 0;
    while j < entry.inputs.len()
        invariant
            j <= entry.inputs@.len(),
            inputs@.len() == j,
            graph@.len() == before.len(),
            target == entry@.output,
            entry_reads(entry@, before.len() as int),
            forall|i: int| 0 <= i < before.len() && i != target ==> graph@[i] == before[i],
            forall|i: int| 0 <= i < j ==> *(#[trigger] inputs@[i]) == before[entry@.inputs[i]],
        decreases entry.inputs@.len() - j,
    {
        let source: usize = entry.inputs[j].index();
        assert(source == entry@.inputs[j as int]);
        inputs.push(&graph[source]);
        j += 1;
    }
    assert(pointees(inputs@) =~= gather(before, entry@.inputs));
    entry.operation.forward(ctx, inputs.as_slice(), &mut output);
    core::mem::swap(&mut output, &mut graph[target]);
    assert(graph@ =~= forward_step::<T>(state(before, *old(ctx)), entry@).slots);
}

/// Runs one entry backward: its inputs are lent exclusive, its output shared.
fn backward_entry<T: Tensor>(
    entry: &OperationPayload<T::DiffableOperation>,
    ctx: &mut T::ExecutionContext,
    graph: &mut [T],
)
    requires
        entry_fits(entry@, old(graph)@.len() as int),
    ensures
        state::<T>(final(graph)@, *final(ctx)) == backward_step::<T>(
            state(old(graph)@, *old(ctx)),
            entry@,
        ),
{
    let ghost before = graph@;
    let count: usize = entry.inputs.len();
    let mut taken: Vec<T> = Vec::new();
    let mut j: usize = 0;
    while j < count
        invariant
            j <= count,
            count == entry@.inputs.len(),
            taken@.len() == j,
            graph@.len() == before.len(),
            entry_fits(entry@, before.len() as int),
            forall|i: int| 0 <= i < j ==> #[trigger] taken@[i] == before[entry@.inputs[i]],
            forall|i: int|
                0 <= i < before.len() && !entry@.inputs.take(j as int).contains(i)
                    ==> #[trigger] graph@[i] == before[i],
        decreases count - j,
    {
        let source: usize = entry.inputs[j].index();
        assert(source == entry@.inputs[j as int]);
        let mut slot = T::default();
        core::mem::swap(&mut slot, &mut graph[source]);
        taken.push(slot);
        assert forall|i: int|
            0 <= i < before.len() && !entry@.inputs.take(j + 1).contains(i) implies #[trigger] graph@[i]
            == before[i] by {
            assert(entry@.inputs.take(j + 1)[j as int] == source);
        }
        j += 1;
    }
    assert(taken@ =~= gather(before, entry@.inputs));
    let target: usize = entry.output.index();
    entry.operation.backward(ctx, &graph[target], taken.as_mut_slice());
    let ghost given = taken@;
    while j > 0
        invariant
            j <= count,
            count == entry@.inputs.len(),
            taken@ == given.take(j as int),
            given.len() == count,
            graph@.len() == before.len(),
            entry_fits(entry@, before.len() as int),
            forall|k: int| j <= k < count ==> #[trigger] graph@[entry@.inputs[k]] == given[k],
            forall|i: int|
                0 <= i < before.len() && !entry@.inputs.contains(i) ==> #[trigger] graph@[i]
                    == before[i],
        decreases j,
    {
        j -= 1;
        let slot = taken.pop().unwrap();
        let source: usize = entry.inputs[j].index();
        assert(source == entry@.inputs[j as int]);
        graph[source] = slot;
    }
    assert(graph@ =~= scatter(before, entry@.inputs, given));
}

impl<T: Tensor> OperationQueue<T, false> {
    /// Replays the queue forward over the slots of `graph`, front to back.
    pub fn execute_on(&self, ctx: &mut T::ExecutionContext, graph: &mut [T])
        requires
            queue_reads(self@, old(graph)@.len() as int),
        ensures
            state::<T>(final(graph)@, *final(ctx)) == replay_forward::<T>(
                self@,
                state(old(graph)@, *old(ctx)),
            ),
    {
        let ghost start = state::<T>(graph@, *ctx);
        let mut k: usize = 0;
        while k < self.queue.len()
            invariant
                k <= self.queue@.len(),
                self@.len() == self.queue@.len(),
                queue_reads(self@, graph@.len() as int),
                state::<T>(graph@, *ctx) == replay_forward::<T>(self@.take(k as int), start),
            decreases self.queue@.len() - k,
        {
            assert(self.queue@[k as int]@ == self@[k as int]);
            assert(self@.take(k + 1).drop_last() =~= self@.take(k as int));
            forward_entry::<T>(&self.queue[k], ctx, graph);
            k += 1;
        }
        assert(self@.take(k as int) =~= self@);
    }
}

impl<T: Tensor> OperationQueue<T, true> {
    /// Replays the queue backward over the slots of `graph`, front to back.
    pub fn execute_on(&self, ctx: &mut T::ExecutionContext, graph: &mut [T])
        requires
            queue_fits(self@, old(graph)@.len() as int),
        ensures
            state::<T>(final(graph)@, *final(ctx)) == replay_backward::<T>(
                self@,
                state(old(graph)@, *old(ctx)),
            ),
    {
        let ghost start = state::<T>(graph@, *ctx);
        let mut k: usize = 0;
        while k < self.queue.len()
            invariant
                k <= self.queue@.len(),
                self@.len() == self.queue@.len(),
                queue_fits(self@, graph@.len() as int),
                state::<T>(graph@, *ctx) == replay_backward::<T>(self@.take(k as int), start),
            decreases self.queue@.len() - k,
        {
            assert(self.queue@[k as int]@ == self@[k as int]);
            assert(self@.take(k + 1).drop_last() =~= self@.take(k as int));
            backward_entry::<T>(&self.queue[k], ctx, graph);
            k += 1;
        }
        assert(self@.take(k as int) =~= self@);
    }
}

} // verus!
