use vstd::prelude::*;

use crate::arrival::sweep_order;
use crate::error::GraphError;
use crate::graph::{runs_in_order, GraphModel, Names};
use crate::operation::{DiffableOperation, Entry};
use crate::tensor::Tensor;

verus! {

/// Some entry among the first `k` of `q` writes the slot `x`.
pub open spec fn written_before<F>(q: Seq<Entry<F>>, k: int, x: int) -> bool {
    exists|j: int| 0 <= j < k && j < q.len() && (#[trigger] q[j]).output == x
}

/// A node record as contracts see it.
pub struct NodeModel<T: Tensor> {
    /// The identifier, present on inputs and weights only.
    pub id: Option<Seq<char>>,
    /// The descriptor of the node's value.
    pub vals: T::ModelOfTensor,
    /// Whether the node's slot takes a gradient.
    pub requires_grad: bool,
    /// The operation that computes the node, absent on a leaf.
    pub operation: Option<T::DiffableOperation>,
    /// The nodes the operation reads, in order.
    pub parents: Seq<int>,
}

impl<T: Tensor> NodeModel<T> {
    /// A record is malformed when it names parents without an operation, or
    /// when an operation computes it and it carries an identifier or takes
    /// no gradient.
    pub open spec fn malformed(self) -> bool {
        ||| self.operation is None && self.parents.len() > 0
        ||| self.operation is Some && (self.id is Some || !self.requires_grad)
    }
}

/// A builder as contracts see it: the records in creation order, and the
/// registered inputs and weights in registration order.
pub struct BuilderModel<T: Tensor> {
    pub nodes: Seq<NodeModel<T>>,
    pub inputs: Seq<int>,
    pub weights: Seq<int>,
}

impl<T: Tensor> BuilderModel<T> {
    /// Some node carries this identifier.
    pub open spec fn has_id(self, id: Seq<char>) -> bool {
        exists|v: int| 0 <= v < self.nodes.len() && (#[trigger] self.nodes[v]).id == Some(id)
    }

    /// Some node reads `v`.
    pub open spec fn has_child(self, v: int) -> bool {
        exists|c: int| 0 <= c < self.nodes.len() && (#[trigger] self.nodes[c]).parents.contains(v)
    }

    /// `v` is a node that no node reads.
    pub open spec fn is_root(self, v: int) -> bool {
        0 <= v < self.nodes.len() && !self.has_child(v)
    }

    /// The invariants of the data model: edges lead from older to newer nodes,
    /// an operation reads no node twice, a leaf has no parents, what an
    /// operation computes takes a gradient, identifiers sit on leaves and are
    /// unique, and the registered inputs and weights are identified leaves,
    /// each listed once.
    pub open spec fn wf(self) -> bool {
        &&& forall|v: int, k: int|
            0 <= v < self.nodes.len() && 0 <= k < self.nodes[v].parents.len() ==> 0
                <= #[trigger] self.nodes[v].parents[k] < v
        &&& forall|v: int|
            0 <= v < self.nodes.len() ==> (#[trigger] self.nodes[v]).parents.no_duplicates()
                && !self.nodes[v].malformed()
        &&& forall|u: int, v: int|
            0 <= u < v < self.nodes.len() && (#[trigger] self.nodes[u]).id is Some ==> self.nodes[u].id
                != (#[trigger] self.nodes[v]).id
        &&& self.inputs.no_duplicates()
        &&& self.weights.no_duplicates()
        &&& forall|j: int|
            0 <= j < self.inputs.len() ==> self.is_leaf_with_id(#[trigger] self.inputs[j])
                && !self.nodes[self.inputs[j]].requires_grad
        &&& forall|j: int|
            0 <= j < self.weights.len() ==> self.is_leaf_with_id(#[trigger] self.weights[j])
                && self.nodes[self.weights[j]].requires_grad
    }

    /// `v` is a node without operation that carries an identifier.
    pub open spec fn is_leaf_with_id(self, v: int) -> bool {
        &&& 0 <= v < self.nodes.len()
        &&& self.nodes[v].operation is None
        &&& self.nodes[v].id is Some
    }

    /// What each node reads.
    pub open spec fn parents(self) -> Seq<Seq<int>> {
        Seq::new(self.nodes.len(), |v: int| self.nodes[v].parents)
    }

    /// The queue entry of a node that an operation computes.
    pub open spec fn step(self, v: int) -> Entry<T::DiffableOperation> {
        Entry { operation: self.nodes[v].operation->Some_0, inputs: self.nodes[v].parents, output: v }
    }

    /// `e` is the queue entry of some node that an operation computes.
    pub open spec fn is_step(self, e: Entry<T::DiffableOperation>) -> bool {
        &&& 0 <= e.output < self.nodes.len()
        &&& self.nodes[e.output].operation is Some
        &&& e == self.step(e.output)
    }

    /// The queue that visits the nodes in the given order: one entry for each
    /// node that an operation computes, none for a leaf.
    pub open spec fn entries(self, order: Seq<int>) -> Seq<Entry<T::DiffableOperation>>
        decreases order.len(),
    {
        if order.len() == 0 {
            Seq::empty()
        } else {
            let front = self.entries(order.drop_last());
            if self.nodes[order.last()].operation is Some {
                front.push(self.step(order.last()))
            } else {
                front
            }
        }
    }

    /// `q` is a schedule of this builder's operations: its entries are the
    /// operation results, each once; an input that an operation computes is
    /// written by an earlier entry, while a leaf needs none; and no entry
    /// reads a slot that it or a later entry writes.
    pub open spec fn schedules(self, q: Seq<Entry<T::DiffableOperation>>) -> bool {
        &&& forall|k: int| 0 <= k < q.len() ==> self.is_step(#[trigger] q[k])
        &&& forall|v: int|
            0 <= v < self.nodes.len() && (#[trigger] self.nodes[v]).operation is Some
                ==> written_before(q, q.len() as int, v)
        &&& forall|k: int, a: int|
            0 <= k < q.len() && 0 <= a < q[k].inputs.len() && self.nodes[q[k].inputs[a]].operation
                is Some ==> written_before(q, k, #[trigger] q[k].inputs[a])
        &&& runs_in_order(q)
    }

    /// `r` is the one node that no node reads.
    pub open spec fn is_sole_root(self, r: int) -> bool {
        self.is_root(r) && forall|v: int| self.is_root(v) ==> v == r
    }

    /// The one node that no node reads, where there is exactly one.
    pub open spec fn sole_root(self) -> int {
        choose|r: int| self.is_sole_root(r)
    }

    /// Why the builder cannot compile, if it cannot: it has no root or
    /// several, or its root is an input, or its root is a weight.
    pub open spec fn build_rejection(self) -> Option<GraphError> {
        if !exists|r: int| self.is_sole_root(r) {
            Some(GraphError::RootCount)
        } else if !self.nodes[self.sole_root()].requires_grad {
            Some(GraphError::RootIsInput)
        } else if self.weights.contains(self.sole_root()) {
            Some(GraphError::RootIsWeight)
        } else {
            None
        }
    }

    /// The name table of a list of identified leaves.
    pub open spec fn names(self, leaves: Seq<int>) -> Names {
        Seq::new(leaves.len(), |j: int| (self.nodes[leaves[j]].id->Some_0, leaves[j]))
    }

    /// The slots a compiled graph starts with: one per node, built from the
    /// node's descriptor.
    pub open spec fn fresh_slots(self) -> Seq<T> {
        Seq::new(
            self.nodes.len(),
            |v: int| T::new_spec(self.nodes[v].vals, self.nodes[v].requires_grad),
        )
    }

    /// `g` is the compilation of this builder around the context `ctx`: the
    /// forward queue visits the nodes in the order of the sweep, which makes
    /// it a schedule.
    pub open spec fn compiles_to(self, g: GraphModel<T>, ctx: T::ExecutionContext) -> bool {
        &&& g.ctx == ctx
        &&& g.root == self.sole_root()
        &&& g.slots == self.fresh_slots()
        &&& g.inputs == self.names(self.inputs)
        &&& g.weights == self.names(self.weights)
        &&& g.forward == self.entries(sweep_order(self.parents()))
        &&& self.schedules(g.forward)
        &&& g.backward == g.forward.reverse()
    }

    /// Why a record cannot join the builder, if it cannot.
    pub open spec fn node_rejection(self, record: NodeModel<T>) -> Option<GraphError> {
        if record.id is Some && self.has_id(record.id->Some_0) {
            Some(GraphError::DuplicateId)
        } else if !record.parents.no_duplicates() {
            Some(GraphError::AliasedInput)
        } else if exists|k: int|
            0 <= k < record.parents.len() && !(0 <= #[trigger] record.parents[k] < self.nodes.len()) {
            Some(GraphError::UnknownNode)
        } else if record.malformed() {
            Some(GraphError::MalformedNode)
        } else {
            None
        }
    }

    /// The builder after a record joined it.
    pub open spec fn with_node(self, record: NodeModel<T>) -> BuilderModel<T> {
        BuilderModel { nodes: self.nodes.push(record), inputs: self.inputs, weights: self.weights }
    }

    /// The record of a leaf.
    pub open spec fn leaf(id: Seq<char>, vals: T::ModelOfTensor, requires_grad: bool) -> NodeModel<T> {
        NodeModel { id: Some(id), vals, requires_grad, operation: None, parents: Seq::empty() }
    }

    /// The builder after an input was registered.
    pub open spec fn with_input(self, id: Seq<char>, vals: T::ModelOfTensor) -> BuilderModel<T> {
        BuilderModel {
            nodes: self.nodes.push(Self::leaf(id, vals, false)),
            inputs: self.inputs.push(self.nodes.len() as int),
            weights: self.weights,
        }
    }

    /// The builder after a weight was registered.
    pub open spec fn with_weights(self, id: Seq<char>, vals: T::ModelOfTensor) -> BuilderModel<T> {
        BuilderModel {
            nodes: self.nodes.push(Self::leaf(id, vals, true)),
            inputs: self.inputs,
            weights: self.weights.push(self.nodes.len() as int),
        }
    }

    /// The descriptors of the nodes at `inputs`, in that order.
    pub open spec fn descriptors(self, inputs: Seq<int>) -> Seq<T::ModelOfTensor> {
        Seq::new(inputs.len(), |j: int| self.nodes[inputs[j]].vals)
    }

    /// What registering the result of `operation` over `inputs` comes to: the
    /// record that joins the builder, or the reason why none does.
    pub open spec fn result_of(self, operation: T::DiffableOperation, inputs: Seq<int>) -> Result<
        NodeModel<T>,
        GraphError,
    > {
        if !inputs.no_duplicates() {
            Err(GraphError::AliasedInput)
        } else if exists|k: int|
            0 <= k < inputs.len() && !(0 <= #[trigger] inputs[k] < self.nodes.len()) {
            Err(GraphError::UnknownNode)
        } else {
            match operation.output_tensor_spec(self.descriptors(inputs)) {
                Ok(vals) => Ok(
                    NodeModel {
                        id: None,
                        vals,
                        requires_grad: true,
                        operation: Some(operation),
                        parents: inputs,
                    },
                ),
                Err(text) => Err(GraphError::InvalidOperation(text)),
            }
        }
    }
}

} // verus!
