use std::collections::HashSet;
use vstd::prelude::*;

use crate::arrival::{first_come_first_out, sweep_order};
use crate::error::GraphError;
use crate::graph::{names_of, Graph};
use crate::model::{BuilderModel, NodeModel};
use crate::operation::{DiffableOperation, Entry, OperationQueue};
use crate::schedule::{lemma_entries_concat, lemma_schedule};
use crate::sweep::{parents_of, sweep};
use crate::tensor::Tensor;
use crate::topology::is_topological_order;

verus! {

broadcast use vstd::std_specs::hash::group_hash_axioms;

/// A handle on one node of a graph: its position in creation order.
#[derive(Clone, Copy, Debug, Hash, PartialEq, Eq, Structural)]
pub struct Node(pub(crate) usize);

impl View for Node {
    type V = int;

    closed spec fn view(&self) -> int {
        self.0 as int
    }
}

impl Node {
    /// The position of the node in creation order.
    pub fn index(&self) -> (i: usize)
        ensures
            i == self@,
    {
        self.0
    }

    /// The handle on the node at a position.
    pub(crate) fn at(i: usize) -> (node: Node)
        ensures
            node@ == i,
    {
        Node(i)
    }
}

/// The positions that a list of handles names.
pub open spec fn indices(nodes: Seq<Node>) -> Seq<int> {
    nodes.map_values(|n: Node| n@)
}

/// The characters of an optional identifier.
pub open spec fn id_chars(id: Option<String>) -> Option<Seq<char>> {
    match id {
        Some(s) => Some(s@),
        None => None,
    }
}

/// One node record: what a builder keeps of a node until it compiles.
#[derive(Debug)]
pub struct NodeData<T: Tensor> {
    own: Node,
    id: Option<String>,
    vals: T::ModelOfTensor,
    requires_grad: bool,
    parent_operation: Option<T::DiffableOperation>,
    parent_nodes: Vec<Node>,
}

impl<T: Tensor> View for NodeData<T> {
    type V = NodeModel<T>;

    closed spec fn view(&self) -> NodeModel<T> {
        NodeModel {
            id: id_chars(self.id),
            vals: self.vals,
            requires_grad: self.requires_grad,
            operation: self.parent_operation,
            parents: indices(self.parent_nodes@),
        }
    }
}

impl<T: Tensor> NodeData<T> {
    /// A record that is not yet part of a builder.
    pub fn new(
        id: Option<String>,
        operation: Option<T::DiffableOperation>,
        vals: T::ModelOfTensor,
        requires_grad: bool,
        parents: &[Node],
    ) -> (data: Self)
        ensures
            data@.id == id_chars(id),
            data@.operation == operation,
            data@.vals == vals,
            data@.requires_grad == requires_grad,
            data@.parents == indices(parents@),
    {
        Self {
            id,
            own: Node(usize::MAX),
            vals,
            requires_grad,
            parent_operation: operation,
            parent_nodes: vstd::slice::slice_to_vec(parents),
        }
    }

    /// The nodes that the record's operation reads, in order.
    pub fn parents(&self) -> (nodes: &[Node])
        ensures
            indices(nodes@) == self@.parents,
    {
        self.parent_nodes.as_slice()
    }
}

/// Tells whether a list of handles names some node twice.
fn has_alias(nodes: &[Node]) -> (aliased: bool)
    ensures
        aliased == !indices(nodes@).no_duplicates(),
{
    let ghost all = indices(nodes@);
    let mut seen: HashSet<usize> = HashSet::new();
    let mut j: usize = 0;
    while j < nodes.len()
        invariant
            j <= nodes@.len(),
            all == indices(nodes@),
            all.take(j as int).no_duplicates(),
            forall|x: usize| seen@.contains(x) <==> all.take(j as int).contains(x as int),
        decreases nodes@.len() - j,
    {
        let ghost prev = all.take(j as int);
        let ghost next = all.take(j + 1);
        let fresh = seen.insert(nodes[j].index());
        if !fresh {
            proof {
                let i = choose|i: int| 0 <= i < prev.len() && prev[i] == all[j as int];
                assert(all[i] == all[j as int]);
            }
            return true;
        }
        proof {
            assert(next[j as int] == all[j as int]);
        }
        j += 1;
    }
    assert(all.take(j as int) =~= all);
    false
}

/// The construction-time description of a graph: node records in creation
/// order, which of them no node reads yet, and the registered inputs and
/// weights.
#[derive(Debug)]
pub struct GraphBuilder<T: Tensor> {
    nodes: Vec<NodeData<T>>,
    roots: Vec<bool>,
    inputs: Vec<Node>,
    weights: Vec<Node>,
}

impl<T: Tensor> View for GraphBuilder<T> {
    type V = BuilderModel<T>;

    closed spec fn view(&self) -> BuilderModel<T> {
        BuilderModel {
            nodes: self.nodes@.map_values(|d: NodeData<T>| d@),
            inputs: indices(self.inputs@),
            weights: indices(self.weights@),
        }
    }
}

impl<T: Tensor> Default for GraphBuilder<T> {
    /// A builder without nodes.
    fn default() -> (builder: Self)
        ensures
            builder.wf(),
            builder@.nodes.len() == 0,
            builder@.inputs.len() == 0,
            builder@.weights.len() == 0,
    {
        Self { nodes: Vec::new(), roots: Vec::new(), inputs: Vec::new(), weights: Vec::new() }
    }
}

impl<T: Tensor> GraphBuilder<T> {
    /// The root marks agree with the records, and each record knows its own
    /// position.
    pub closed spec fn marks_agree(&self) -> bool {
        &&& self.roots@.len() == self.nodes@.len()
        &&& forall|v: int| 0 <= v < self.nodes@.len() ==> self.roots@[v] == self@.is_root(v)
        &&& forall|v: int| 0 <= v < self.nodes@.len() ==> (#[trigger] self.nodes@[v]).own@ == v
    }

    /// The builder is in a state that its own operations leave behind.
    pub open spec fn wf(&self) -> bool {
        self@.wf() && self.marks_agree()
    }

    /// The record of a node, if the handle names one of this builder.
    pub fn node(&self, node: Node) -> (data: Option<&NodeData<T>>)
        ensures
            0 <= node@ < self@.nodes.len() ==> data is Some && data->Some_0@ == self@.nodes[node@],
            !(0 <= node@ < self@.nodes.len()) ==> data is None,
    {
        if node.0 < self.nodes.len() {
            Some(&self.nodes[node.0])
        } else {
            None
        }
    }

    /// Tells whether some record carries this identifier.
    fn id_taken(&self, id: &String) -> (taken: bool)
        ensures
            taken == self@.has_id(id@),
    {
        let mut v: usize = 0;
        while v < self.nodes.len()
            invariant
                v <= self.nodes@.len(),
                forall|u: int| 0 <= u < v ==> (#[trigger] self@.nodes[u]).id != Some(id@),
            decreases self.nodes@.len() - v,
        {
            match &self.nodes[v].id {
                Some(other) => {
                    if *other == *id {
                        assert(self@.nodes[v as int].id == Some(id@));
                        return true;
                    }
                },
                None => {},
            }
            v += 1;
        }
        false
    }

    /// Tells whether every handle names a node of this builder.
    fn all_known(&self, nodes: &[Node]) -> (known: bool)
        ensures
            known == (forall|k: int|
                0 <= k < nodes@.len() ==> 0 <= #[trigger] indices(nodes@)[k] < self@.nodes.len()),
    {
        let mut j: usize = 0;
        while j < nodes.len()
            invariant
                j <= nodes@.len(),
                forall|k: int| 0 <= k < j ==> 0 <= #[trigger] indices(nodes@)[k] < self@.nodes.len(),
            decreases nodes@.len() - j,
        {
            if nodes[j].0 >= self.nodes.len() {
                assert(!(0 <= indices(nodes@)[j as int] < self@.nodes.len()));
                return false;
            }
            j += 1;
        }
        true
    }

    /// Appends a record that was found acceptable, and takes the root mark
    /// off each node that the record reads.
    fn push_node(&mut self, data: NodeData<T>) -> (node: Node)
        requires
            old(self).wf(),
            old(self)@.node_rejection(data@) is None,
        ensures
            final(self).wf(),
            final(self)@ == old(self)@.with_node(data@),
            node@ == old(self)@.nodes.len(),
    {
        let ghost before = old(self)@;
        let ghost record = data@;
        let ghost after = before.with_node(record);
        let n: usize = self.nodes.len();
        let node = Node(n);
        let mut data = data;
        data.own = node;
        let mut k: usize = 0;
        while k < data.parent_nodes.len()
            invariant
                k <= data.parent_nodes@.len(),
                data@ == record,
                self@ == before,
                self.nodes@ == old(self).nodes@,
                self.roots@.len() == n,
                n == before.nodes.len(),
                before.node_rejection(record) is None,
                forall|v: int|
                    0 <= v < n ==> #[trigger] self.roots@[v] == (before.is_root(v)
                        && !record.parents.take(k as int).contains(v)),
            decreases data.parent_nodes@.len() - k,
        {
            let ghost next = record.parents.take(k + 1);
            let p: usize = data.parent_nodes[k].0;
            assert(p == record.parents[k as int]);
            self.roots[p] = false;
            proof {
                assert(next[k as int] == p);
            }
            k += 1;
        }
        assert(record.parents.take(k as int) =~= record.parents);
        self.nodes.push(data);
        self.roots.push(true);
        proof {
            assert(self@.nodes =~= after.nodes);
            assert forall|v: int| 0 <= v < n implies (after.is_root(v) <==> before.is_root(v)
                && !record.parents.contains(v)) by {
                if before.has_child(v) {
                    let c = choose|c: int|
                        0 <= c < before.nodes.len() && (#[trigger] before.nodes[c]).parents.contains(v);
                    assert(after.nodes[c].parents.contains(v));
                }
                if record.parents.contains(v) {
                    assert(after.nodes[n as int].parents.contains(v));
                }
            }
        }
        node
    }

    /// Adds a node record. The record is refused, and the builder left as it
    /// was, when its identifier is taken, when it names a parent twice or a
    /// parent that is no node of this builder, or when it is malformed.
    pub fn create_node(&mut self, data: NodeData<T>) -> (r: Result<Node, GraphError>)
        requires
            old(self).wf(),
        ensures
            final(self).wf(),
            match old(self)@.node_rejection(data@) {
                Some(e) => r == Err::<Node, GraphError>(e) && final(self)@ == old(self)@,
                None => {
                    &&& r is Ok
                    &&& r->Ok_0@ == old(self)@.nodes.len()
                    &&& final(self)@ == old(self)@.with_node(data@)
                },
            },
    {
        match &data.id {
            Some(id) => {
                if self.id_taken(id) {
                    return Err(GraphError::DuplicateId);
                }
            },
            None => {},
        }
        if has_alias(data.parent_nodes.as_slice()) {
            return Err(GraphError::AliasedInput);
        }
        if !self.all_known(data.parent_nodes.as_slice()) {
            return Err(GraphError::UnknownNode);
        }
        let leaf: bool = data.parent_operation.is_none();
        if (leaf && data.parent_nodes.len() > 0) || (!leaf && (data.id.is_some()
            || !data.requires_grad)) {
            return Err(GraphError::MalformedNode);
        }
        Ok(self.push_node(data))
    }

    /// Registers an input: a leaf that takes no gradient. Refused when the
    /// identifier is taken.
    pub fn create_input(&mut self, id: &str, vals: T::ModelOfTensor) -> (r: Result<Node, GraphError>)
        requires
            old(self).wf(),
        ensures
            final(self).wf(),
            old(self)@.has_id(id@) ==> r == Err::<Node, GraphError>(GraphError::DuplicateId)
                && final(self)@ == old(self)@,
            !old(self)@.has_id(id@) ==> {
                &&& r is Ok
                &&& r->Ok_0@ == old(self)@.nodes.len()
                &&& final(self)@ == old(self)@.with_input(id@, vals)
            },
    {
        let none: Vec<Node> = Vec::new();
        let data = NodeData::new(Some(id.to_owned()), None, vals, false, none.as_slice());
        assert(data@ == BuilderModel::<T>::leaf(id@, vals, false)) by {
            assert(data@.parents =~= Seq::<int>::empty());
        }
        match self.create_node(data) {
            Ok(node) => {
                self.inputs.push(node);
                proof {
                    let after = old(self)@.with_input(id@, vals);
                    assert(self@.inputs =~= after.inputs);
                }
                Ok(node)
            },
            Err(e) => Err(e),
        }
    }

    /// Registers a weight: a leaf that takes a gradient. Refused when the
    /// identifier is taken.
    pub fn create_weights(&mut self, id: &str, vals: T::ModelOfTensor) -> (r: Result<Node, GraphError>)
        requires
            old(self).wf(),
        ensures
            final(self).wf(),
            old(self)@.has_id(id@) ==> r == Err::<Node, GraphError>(GraphError::DuplicateId)
                && final(self)@ == old(self)@,
            !old(self)@.has_id(id@) ==> {
                &&& r is Ok
                &&& r->Ok_0@ == old(self)@.nodes.len()
                &&& final(self)@ == old(self)@.with_weights(id@, vals)
            },
    {
        let none: Vec<Node> = Vec::new();
        let data = NodeData::new(Some(id.to_owned()), None, vals, true, none.as_slice());
        assert(data@ == BuilderModel::<T>::leaf(id@, vals, true)) by {
            assert(data@.parents =~= Seq::<int>::empty());
        }
        match self.create_node(data) {
            Ok(node) => {
                self.weights.push(node);
                proof {
                    let after = old(self)@.with_weights(id@, vals);
                    assert(self@.weights =~= after.weights);
                }
                Ok(node)
            },
            Err(e) => Err(e),
        }
    }

    /// Registers the result of an operation over existing nodes. Refused, and
    /// the builder left as it was, when a node is listed twice, when a handle
    /// names no node of this builder, or when the operation refuses the
    /// descriptors of its inputs.
    pub fn create_result_of_operation(
        &mut self,
        operation: T::DiffableOperation,
        inputs: &[Node],
    ) -> (r: Result<Node, GraphError>)
        requires
            old(self).wf(),
        ensures
            final(self).wf(),
            match old(self)@.result_of(operation, indices(inputs@)) {
                Ok(record) => {
                    &&& r is Ok
                    &&& r->Ok_0@ == old(self)@.nodes.len()
                    &&& final(self)@ == old(self)@.with_node(record)
                },
                Err(e) => r == Err::<Node, GraphError>(e) && final(self)@ == old(self)@,
            },
    {
        if has_alias(inputs) {
            return Err(GraphError::AliasedInput);
        }
        if !self.all_known(inputs) {
            return Err(GraphError::UnknownNode);
        }
        let mut descriptors: Vec<T::ModelOfTensor> = Vec::new();
        let mut j: usize = 0;
        while j < inputs.len()
            invariant
                j <= inputs@.len(),
                descriptors@.len() == j,
                forall|k: int|
                    0 <= k < inputs@.len() ==> 0 <= #[trigger] indices(inputs@)[k] < self@.nodes.len(),
                forall|k: int|
                    0 <= k < j ==> #[trigger] descriptors@[k] == self@.nodes[indices(inputs@)[k]].vals,
            decreases inputs@.len() - j,
        {
            let source: usize = inputs[j].0;
            assert(source == indices(inputs@)[j as int]);
            descriptors.push(self.nodes[source].vals);
            j += 1;
        }
        assert(descriptors@ =~= self@.descriptors(indices(inputs@)));
        match operation.output_tensor(descriptors.as_slice()) {
            Ok(vals) => {
                let data = NodeData::new(None, Some(operation), vals, true, inputs);
                Ok(self.push_node(data))
            },
            Err(text) => Err(GraphError::InvalidOperation(text)),
        }
    }

    /// The order in which a compiled graph visits the nodes: the one
    /// topological order that serves the frontier of a successor-counting
    /// sweep first come, first out.
    pub fn topological_order(&self) -> (order: Vec<Node>)
        requires
            self.wf(),
        ensures
            is_topological_order(self@.parents(), indices(order@)),
            first_come_first_out(self@.parents(), indices(order@)),
            indices(order@) == sweep_order(self@.parents()),
    {
        assert(self@.parents() =~= parents_of(self.nodes@));
        sweep(&self.nodes)
    }

    /// The forward queue: the operations in the order in which `nodes` lists
    /// their results.
    fn build_forward(&self, nodes: &[Node]) -> (queue: OperationQueue<T, false>)
        requires
            forall|i: int| 0 <= i < nodes@.len() ==> 0 <= #[trigger] indices(nodes@)[i] < self@.nodes.len(),
        ensures
            queue@ == self@.entries(indices(nodes@)),
    {
        let ghost order = indices(nodes@);
        let mut queue = OperationQueue::new();
        let mut i: usize = 0;
        while i < nodes.len()
            invariant
                i <= nodes@.len(),
                order == indices(nodes@),
                forall|i: int| 0 <= i < order.len() ==> 0 <= #[trigger] order[i] < self@.nodes.len(),
                queue@ == self@.entries(order.take(i as int)),
            decreases nodes@.len() - i,
        {
            let node = nodes[i];
            assert(node@ == order[i as int]);
            let data = &self.nodes[node.0];
            assert(order.take(i + 1).drop_last() =~= order.take(i as int));
            match data.parent_operation {
                Some(operation) => {
                    queue.push(operation, data.parent_nodes.as_slice(), node);
                },
                None => {},
            }
            i += 1;
        }
        assert(order.take(i as int) =~= order);
        queue
    }

    /// The backward queue: the operations in the reverse of the order in
    /// which `nodes` lists their results.
    fn build_backward(&self, nodes: &[Node]) -> (queue: OperationQueue<T, true>)
        requires
            forall|i: int| 0 <= i < nodes@.len() ==> 0 <= #[trigger] indices(nodes@)[i] < self@.nodes.len(),
        ensures
            queue@ == self@.entries(indices(nodes@)).reverse(),
    {
        let ghost order = indices(nodes@);
        let mut queue = OperationQueue::new();
        let mut i: usize = nodes.len();
        while i > 0
            invariant
                i <= nodes@.len(),
                order == indices(nodes@),
                forall|i: int| 0 <= i < order.len() ==> 0 <= #[trigger] order[i] < self@.nodes.len(),
                queue@ == self@.entries(order.skip(i as int)).reverse(),
            decreases i,
        {
            i -= 1;
            let node = nodes[i];
            assert(node@ == order[i as int]);
            let data = &self.nodes[node.0];
            proof {
                let one = seq![order[i as int]];
                let rest = order.skip(i + 1);
                assert(order.skip(i as int) =~= one + rest);
                lemma_entries_concat(self@, one, rest);
                assert(self@.entries(one.drop_last()) =~= Seq::<Entry<T::DiffableOperation>>::empty());
            }
            match data.parent_operation {
                Some(operation) => {
                    queue.push(operation, data.parent_nodes.as_slice(), node);
                },
                None => {},
            }
        }
        assert(order.skip(0) =~= order);
        queue
    }

    /// The one node that no node reads, if there is exactly one.
    fn find_root(&self) -> (root: Option<Node>)
        requires
            self.wf(),
        ensures
            match root {
                Some(node) => self@.is_sole_root(node@),
                None => !exists|r: int| self@.is_sole_root(r),
            },
    {
        let mut found: Option<usize> = None;
        let mut v: usize = 0;
        while v < self.roots.len()
            invariant
                v <= self.roots@.len(),
                self.wf(),
                match found {
                    Some(r) => r < v && self@.is_root(r as int) && forall|u: int|
                        0 <= u < v && self@.is_root(u) ==> u == r,
                    None => forall|u: int| 0 <= u < v ==> !self@.is_root(u),
                },
            decreases self.roots@.len() - v,
        {
            if self.roots[v] {
                match found {
                    Some(_) => {
                        return None;
                    },
                    None => {
                        found = Some(v);
                    },
                }
            }
            v += 1;
        }
        match found {
            Some(r) => Some(Node(r)),
            None => None,
        }
    }

    /// Tells whether the node is a registered weight.
    fn is_weight(&self, node: Node) -> (listed: bool)
        ensures
            listed == self@.weights.contains(node@),
    {
        let mut j: usize = 0;
        while j < self.weights.len()
            invariant
                j <= self.weights@.len(),
                forall|k: int| 0 <= k < j ==> self@.weights[k] != node@,
            decreases self.weights@.len() - j,
        {
            if self.weights[j].0 == node.0 {
                assert(self@.weights[j as int] == node@);
                return true;
            }
            j += 1;
        }
        false
    }

    /// The name table of a list of identified leaves.
    fn name_table(&self, leaves: &Vec<Node>) -> (table: Vec<(String, Node)>)
        requires
            forall|j: int| 0 <= j < leaves@.len() ==> self@.is_leaf_with_id(#[trigger] indices(leaves@)[j]),
        ensures
            names_of(table@) == self@.names(indices(leaves@)),
    {
        let mut table: Vec<(String, Node)> = Vec::new();
        let mut j: usize = 0;
        while j < leaves.len()
            invariant
                j <= leaves@.len(),
                table@.len() == j,
                forall|j: int|
                    0 <= j < leaves@.len() ==> self@.is_leaf_with_id(#[trigger] indices(leaves@)[j]),
                forall|k: int|
                    0 <= k < j ==> #[trigger] names_of(table@)[k] == self@.names(
                        indices(leaves@),
                    )[k],
            decreases leaves@.len() - j,
        {
            let ghost listed = table@;
            let node = leaves[j];
            assert(node@ == indices(leaves@)[j as int]);
            let name: String = match &self.nodes[node.0].id {
                Some(id) => id.clone(),
                None => vstd::pervasive::unreached(),
            };
            table.push((name, node));
            assert forall|k: int| 0 <= k < j + 1 implies #[trigger] names_of(table@)[k]
                == self@.names(indices(leaves@))[k] by {
                if k < j {
                    assert(names_of(listed)[k] == self@.names(indices(leaves@))[k]);
                }
            }
            j += 1;
        }
        table
    }

    /// Compiles the builder into a graph around the given context: one slot
    /// per node, built from its descriptor; the operations scheduled in a
    /// topological order for the forward pass and in the reverse of it for
    /// the backward pass; the inputs and weights by name. The builder must
    /// have exactly one root, which is neither an input nor a weight.
    pub fn build(&self, execution_context: T::ExecutionContext) -> (r: Result<Graph<T>, GraphError>)
        requires
            self.wf(),
        ensures
            match self@.build_rejection() {
                Some(e) => r is Err && r->Err_0 == e,
                None => r is Ok && r->Ok_0.wf() && self@.compiles_to(r->Ok_0@, execution_context),
            },
    {
        let root = match self.find_root() {
            Some(node) => node,
            None => {
                return Err(GraphError::RootCount);
            },
        };
        if !self.nodes[root.0].requires_grad {
            return Err(GraphError::RootIsInput);
        }
        if self.is_weight(root) {
            return Err(GraphError::RootIsWeight);
        }
        let mut nodes: Vec<T> = Vec::new();
        let mut v: usize = 0;
        while v < self.nodes.len()
            invariant
                v <= self.nodes@.len(),
                nodes@.len() == v,
                forall|u: int| 0 <= u < v ==> #[trigger] nodes@[u] == self@.fresh_slots()[u],
            decreases self.nodes@.len() - v,
        {
            nodes.push(T::new(self.nodes[v].vals, self.nodes[v].requires_grad));
            v += 1;
        }
        assert(nodes@ =~= self@.fresh_slots());
        let inputs = self.name_table(&self.inputs);
        let weights = self.name_table(&self.weights);
        let order = self.topological_order();
        let forward = self.build_forward(order.as_slice());
        let backward = self.build_backward(order.as_slice());
        proof {
            lemma_schedule(self@, indices(order@));
        }
        Ok(Graph::assemble(nodes, root, inputs, weights, forward, backward, execution_context))
    }
}

} // verus!
