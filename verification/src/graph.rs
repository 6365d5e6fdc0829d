use vstd::prelude::*;

use crate::error::GraphError;
use crate::graph_builder::Node;
use crate::operation::{
    queue_fits, queue_reads, replay_backward, replay_forward, state, Entry, OperationQueue, State,
};
use crate::tensor::Tensor;

verus! {

/// A name table as contracts see it: identifiers with the slot each one
/// names, in registration order.
pub type Names = Seq<(Seq<char>, int)>;

/// The view of a name table.
pub open spec fn names_of(table: Seq<(String, Node)>) -> Names {
    table.map_values(|e: (String, Node)| (e.0@, e.1@))
}

/// Every entry names one of `n` slots, and no identifier is listed twice.
pub open spec fn names_fit(table: Names, n: int) -> bool {
    &&& forall|i: int| 0 <= i < table.len() ==> 0 <= (#[trigger] table[i]).1 < n
    &&& forall|i: int, j: int|
        0 <= i < j < table.len() ==> (#[trigger] table[i]).0 != (#[trigger] table[j]).0
}

/// The identifier is listed at position `i`.
pub open spec fn named_at(table: Names, id: Seq<char>, i: int) -> bool {
    0 <= i < table.len() && table[i].0 == id
}

/// The slot an identifier names, if it is listed.
pub open spec fn lookup(table: Names, id: Seq<char>) -> Option<int> {
    if exists|i: int| named_at(table, id, i) {
        Some(table[choose|i: int| named_at(table, id, i)].1)
    } else {
        None
    }
}

/// The entries can run front to back: no slot is written twice, and no entry
/// reads a slot that it or a later entry writes.
pub open spec fn runs_in_order<F>(q: Seq<Entry<F>>) -> bool {
    &&& forall|j: int, k: int|
        0 <= j < k < q.len() ==> (#[trigger] q[j]).output != (#[trigger] q[k]).output
    &&& forall|j: int, k: int|
        0 <= j <= k < q.len() ==> !(#[trigger] q[j]).inputs.contains((#[trigger] q[k]).output)
}

/// A compiled graph as contracts see it.
pub struct GraphModel<T: Tensor> {
    /// The content of each node's slot.
    pub slots: Seq<T>,
    /// The execution context.
    pub ctx: T::ExecutionContext,
    /// The node whose value the graph computes.
    pub root: int,
    /// The inputs by identifier.
    pub inputs: Names,
    /// The weights by identifier.
    pub weights: Names,
    /// The steps of a forward pass.
    pub forward: Seq<Entry<T::DiffableOperation>>,
    /// The steps of a backward pass.
    pub backward: Seq<Entry<T::DiffableOperation>>,
}

impl<T: Tensor> GraphModel<T> {
    /// The invariants of a compiled graph: the root and every named slot
    /// exist, the forward queue respects the access discipline and can run
    /// front to back, and the backward queue is the forward queue reversed.
    pub open spec fn wf(self) -> bool {
        &&& 0 <= self.root < self.slots.len()
        &&& names_fit(self.inputs, self.slots.len() as int)
        &&& names_fit(self.weights, self.slots.len() as int)
        &&& queue_fits(self.forward, self.slots.len() as int)
        &&& runs_in_order(self.forward)
        &&& self.backward == self.forward.reverse()
    }

    /// The slots and the context, which is what a replay works on.
    pub open spec fn state(self) -> State<T> {
        state(self.slots, self.ctx)
    }

    /// The graph with the slots and the context of `s`.
    pub open spec fn with_state(self, s: State<T>) -> GraphModel<T> {
        GraphModel { slots: s.slots, ctx: s.ctx, ..self }
    }

    /// The graph with one slot replaced.
    pub open spec fn with_slot(self, v: int, value: T) -> GraphModel<T> {
        GraphModel { slots: self.slots.update(v, value), ..self }
    }

    /// The graph after a forward pass.
    pub open spec fn after_forward(self) -> GraphModel<T> {
        self.with_state(replay_forward(self.forward, self.state()))
    }

    /// The scalar a forward pass reports.
    pub open spec fn forward_value(self) -> Option<T::Scalar> {
        self.after_forward().slots[self.root].scalar_spec()
    }

    /// The graph after a backward pass: the root's gradient is seeded, then
    /// the backward queue runs over the slots as they are.
    pub open spec fn after_backward(self) -> GraphModel<T> {
        let seeded = self.with_slot(self.root, self.slots[self.root].set_grad_to_unit_spec());
        self.with_state(replay_backward(self.backward, seeded.state()))
    }

    /// The graph after every gradient was reset.
    pub open spec fn after_zero_grads(self) -> GraphModel<T> {
        GraphModel { slots: self.slots.map_values(|t: T| t.zero_grad_spec()), ..self }
    }
}

/// The executable form of a graph: one slot per node, the two queues, the
/// name tables and the execution context.
#[derive(Debug)]
pub struct Graph<T: Tensor> {
    pub(crate) nodes: Vec<T>,
    pub(crate) root: Node,
    pub(crate) inputs: Vec<(String, Node)>,
    pub(crate) weights: Vec<(String, Node)>,
    pub(crate) forward: OperationQueue<T, false>,
    pub(crate) backward: OperationQueue<T, true>,
    pub(crate) execution_context: T::ExecutionContext,
}

impl<T: Tensor> View for Graph<T> {
    type V = GraphModel<T>;

    closed spec fn view(&self) -> GraphModel<T> {
        GraphModel {
            slots: self.nodes@,
            ctx: self.execution_context,
            root: self.root@,
            inputs: names_of(self.inputs@),
            weights: names_of(self.weights@),
            forward: self.forward@,
            backward: self.backward@,
        }
    }
}

/// Replaying a queue forward keeps the number of slots.
pub proof fn lemma_forward_keeps_len<T: Tensor>(q: Seq<Entry<T::DiffableOperation>>, s: State<T>)
    requires
        queue_reads(q, s.slots.len() as int),
    ensures
        replay_forward(q, s).slots.len() == s.slots.len(),
    decreases q.len(),
{
    if q.len() > 0 {
        let front = q.drop_last();
        lemma_forward_keeps_len(front, s);
    }
}

/// Replaying a queue backward keeps the number of slots.
pub proof fn lemma_backward_keeps_len<T: Tensor>(q: Seq<Entry<T::DiffableOperation>>, s: State<T>)
    ensures
        replay_backward(q, s).slots.len() == s.slots.len(),
    decreases q.len(),
{
    if q.len() > 0 {
        lemma_backward_keeps_len(q.drop_last(), s);
    }
}

/// Finds the node an identifier names.
fn find(table: &Vec<(String, Node)>, id: &str) -> (found: Option<Node>)
    requires
        forall|i: int, j: int|
            0 <= i < j < table@.len() ==> (#[trigger] names_of(table@)[i]).0 != (
            #[trigger] names_of(table@)[j]).0,
    ensures
        match lookup(names_of(table@), id@) {
            Some(v) => found is Some && found->Some_0@ == v,
            None => found is None,
        },
{
    let ghost names = names_of(table@);
    let key = id.to_owned();
    let mut i: usize = 0;
    while i < table.len()
        invariant
            i <= table@.len(),
            key@ == id@,
            names == names_of(table@),
            forall|a: int, b: int|
                0 <= a < b < names.len() ==> (#[trigger] names[a]).0 != (#[trigger] names[b]).0,
            forall|j: int| 0 <= j < i ==> !named_at(names, id@, j),
        decreases table@.len() - i,
    {
        if table[i].0 == key {
            let node = table[i].1;
            proof {
                assert(named_at(names, id@, i as int));
            }
            return Some(node);
        }
        i += 1;
    }
    None
}

impl<T: Tensor> Graph<T> {
    /// The graph is in a state that its own operations leave behind.
    pub open spec fn wf(&self) -> bool {
        self@.wf()
    }

    /// Puts the parts of a compiled graph together.
    pub(crate) fn assemble(
        nodes: Vec<T>,
        root: Node,
        inputs: Vec<(String, Node)>,
        weights: Vec<(String, Node)>,
        forward: OperationQueue<T, false>,
        backward: OperationQueue<T, true>,
        execution_context: T::ExecutionContext,
    ) -> (graph: Self)
        ensures
            graph@.slots == nodes@,
            graph@.ctx == execution_context,
            graph@.root == root@,
            graph@.inputs == names_of(inputs@),
            graph@.weights == names_of(weights@),
            graph@.forward == forward@,
            graph@.backward == backward@,
    {
        Self { nodes, root, inputs, weights, forward, backward, execution_context }
    }

    /// The node whose value the graph computes.
    pub fn root(&self) -> (node: Node)
        ensures
            node@ == self@.root,
    {
        self.root
    }

    /// The steps of a forward pass, in the order in which they run.
    pub fn forward_queue(&self) -> (queue: &OperationQueue<T, false>)
        ensures
            queue@ == self@.forward,
    {
        &self.forward
    }

    /// The steps of a backward pass, in the order in which they run.
    pub fn backward_queue(&self) -> (queue: &OperationQueue<T, true>)
        ensures
            queue@ == self@.backward,
    {
        &self.backward
    }

    /// Runs the forward queue front to back and reports the root's value.
    /// Fails, after the pass, when that value is not a scalar.
    pub fn forward(&mut self) -> (r: Result<T::Scalar, GraphError>)
        requires
            old(self).wf(),
        ensures
            final(self).wf(),
            final(self)@ == old(self)@.after_forward(),
            final(self)@.slots.len() == old(self)@.slots.len(),
            match old(self)@.forward_value() {
                Some(x) => r == Ok::<T::Scalar, GraphError>(x),
                None => r == Err::<T::Scalar, GraphError>(GraphError::NotScalar),
            },
    {
        proof {
            lemma_forward_keeps_len::<T>(self@.forward, self@.state());
        }
        self.forward.execute_on(&mut self.execution_context, self.nodes.as_mut_slice());
        match self.nodes[self.root.index()].get_scalar() {
            Some(x) => Ok(x),
            None => Err(GraphError::NotScalar),
        }
    }

    /// Seeds the root's gradient with the multiplicative identity and runs
    /// the backward queue front to back. No gradient is reset on the way, so
    /// what the operations add lands on top of what the slots held.
    pub fn backward(&mut self)
        requires
            old(self).wf(),
        ensures
            final(self).wf(),
            final(self)@ == old(self)@.after_backward(),
            final(self)@.slots.len() == old(self)@.slots.len(),
    {
        let root: usize = self.root.index();
        self.nodes[root].set_grad_to_unit();
        proof {
            lemma_backward_keeps_len::<T>(self.backward@, state(self.nodes@, self.execution_context));
        }
        self.backward.execute_on(&mut self.execution_context, self.nodes.as_mut_slice());
    }

    /// Copies the forward value of `data` into a slot.
    fn store_values(&mut self, node: Node, data: &T)
        requires
            0 <= node@ < old(self)@.slots.len(),
        ensures
            final(self)@ == old(self)@.with_slot(
                node@,
                data.copy_values_spec(old(self)@.slots[node@]),
            ),
    {
        data.copy_values_into(&mut self.nodes[node.index()]);
    }

    /// Copies the forward value of `data` into the slot of the named input;
    /// the slot's gradient stays. Fails when no input has that name.
    pub fn store_input(&mut self, input: &str, data: &T) -> (r: Result<(), GraphError>)
        requires
            old(self).wf(),
        ensures
            final(self).wf(),
            match lookup(old(self)@.inputs, input@) {
                Some(v) => r is Ok && final(self)@ == old(self)@.with_slot(
                    v,
                    data.copy_values_spec(old(self)@.slots[v]),
                ),
                None => r == Err::<(), GraphError>(GraphError::UnknownId) && final(self)@ == old(self)@,
            },
    {
        match find(&self.inputs, input) {
            Some(node) => {
                self.store_values(node, data);
                Ok(())
            },
            None => Err(GraphError::UnknownId),
        }
    }

    /// Copies the forward value of `data` into the slot of the named weight;
    /// the slot's gradient stays. Fails when no weight has that name.
    pub fn store_weights(&mut self, weights: &str, data: &T) -> (r: Result<(), GraphError>)
        requires
            old(self).wf(),
        ensures
            final(self).wf(),
            match lookup(old(self)@.weights, weights@) {
                Some(v) => r is Ok && final(self)@ == old(self)@.with_slot(
                    v,
                    data.copy_values_spec(old(self)@.slots[v]),
                ),
                None => r == Err::<(), GraphError>(GraphError::UnknownId) && final(self)@ == old(self)@,
            },
    {
        match find(&self.weights, weights) {
            Some(node) => {
                self.store_values(node, data);
                Ok(())
            },
            None => Err(GraphError::UnknownId),
        }
    }

    /// Resets the gradient of every slot.
    pub fn zero_grads(&mut self)
        requires
            old(self).wf(),
        ensures
            final(self).wf(),
            final(self)@ == old(self)@.after_zero_grads(),
    {
        let ghost before = self.nodes@;
        let mut i: usize = 0;
        while i < self.nodes.len()
            invariant
                i <= self.nodes@.len(),
                self.nodes@.len() == before.len(),
                self.root == old(self).root,
                self.inputs == old(self).inputs,
                self.weights == old(self).weights,
                self.forward == old(self).forward,
                self.backward == old(self).backward,
                self.execution_context == old(self).execution_context,
                forall|j: int| 0 <= j < i ==> #[trigger] self.nodes@[j] == before[j].zero_grad_spec(),
                forall|j: int| i <= j < before.len() ==> #[trigger] self.nodes@[j] == before[j],
            decreases self.nodes@.len() - i,
        {
            self.nodes[i].zero_grad();
            i += 1;
        }
        assert(self.nodes@ =~= before.map_values(|t: T| t.zero_grad_spec()));
    }

    /// The identifiers of all weights, in registration order.
    pub fn weight_ids(&self) -> (ids: Vec<String>)
        ensures
            ids@.len() == self@.weights.len(),
            forall|i: int| 0 <= i < ids@.len() ==> (#[trigger] ids@[i])@ == self@.weights[i].0,
    {
        let mut ids: Vec<String> = Vec::new();
        let mut i: usize = 0;
        while i < self.weights.len()
            invariant
                i <= self.weights@.len(),
                ids@.len() == i,
                forall|j: int| 0 <= j < i ==> (#[trigger] ids@[j])@ == self@.weights[j].0,
            decreases self.weights@.len() - i,
        {
            ids.push(self.weights[i].0.clone());
            i += 1;
        }
        ids
    }

    /// The slot of the named input. Fails when no input has that name.
    pub fn get_input(&self, id: &str) -> (r: Result<&T, GraphError>)
        requires
            self.wf(),
        ensures
            match lookup(self@.inputs, id@) {
                Some(v) => r is Ok && *r->Ok_0 == self@.slots[v],
                None => r is Err && r->Err_0 == GraphError::UnknownId,
            },
    {
        match find(&self.inputs, id) {
            Some(node) => {
                Ok(&self.nodes[node.index()])
            },
            None => Err(GraphError::UnknownId),
        }
    }

    /// The slot of the named weight. Fails when no weight has that name.
    pub fn get_weights(&self, id: &str) -> (r: Result<&T, GraphError>)
        requires
            self.wf(),
        ensures
            match lookup(self@.weights, id@) {
                Some(v) => r is Ok && *r->Ok_0 == self@.slots[v],
                None => r is Err && r->Err_0 == GraphError::UnknownId,
            },
    {
        match find(&self.weights, id) {
            Some(node) => {
                Ok(&self.nodes[node.index()])
            },
            None => Err(GraphError::UnknownId),
        }
    }

    /// Exclusive access to the slot of the named input: what the caller
    /// leaves in it is the slot's new content. Fails when no input has that
    /// name.
    pub fn get_input_mut(&mut self, id: &str) -> (r: Result<&mut T, GraphError>)
        requires
            old(self).wf(),
        ensures
            final(self).wf(),
            match lookup(old(self)@.inputs, id@) {
                Some(v) => {
                    &&& r is Ok
                    &&& *r->Ok_0 == old(self)@.slots[v]
                    &&& final(self)@ == old(self)@.with_slot(v, *final(r->Ok_0))
                },
                None => {
                    &&& r is Err
                    &&& r->Err_0 == GraphError::UnknownId
                    &&& final(self)@ == old(self)@
                },
            },
    {
        match find(&self.inputs, id) {
            Some(node) => {
                Ok(&mut self.nodes[node.index()])
            },
            None => Err(GraphError::UnknownId),
        }
    }

    /// Exclusive access to the slot of the named weight: what the caller
    /// leaves in it is the slot's new content. Fails when no weight has that
    /// name.
    pub fn get_weights_mut(&mut self, id: &str) -> (r: Result<&mut T, GraphError>)
        requires
            old(self).wf(),
        ensures
            final(self).wf(),
            match lookup(old(self)@.weights, id@) {
                Some(v) => {
                    &&& r is Ok
                    &&& *r->Ok_0 == old(self)@.slots[v]
                    &&& final(self)@ == old(self)@.with_slot(v, *final(r->Ok_0))
                },
                None => {
                    &&& r is Err
                    &&& r->Err_0 == GraphError::UnknownId
                    &&& final(self)@ == old(self)@
                },
            },
    {
        match find(&self.weights, id) {
            Some(node) => {
                Ok(&mut self.nodes[node.index()])
            },
            None => Err(GraphError::UnknownId),
        }
    }
}

} // verus!
