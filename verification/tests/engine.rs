use diffable::graph_builder::NodeData;
use diffable::operation::OperationQueue;
use diffable::{DiffableOperation, Graph, GraphBuilder, GraphError, Node, Tensor};

#[derive(Clone, Copy, Debug, Default, PartialEq)]
pub struct Float {
    val: f32,
    grad: Option<f32>,
}

impl From<f32> for Float {
    fn from(val: f32) -> Self {
        Float { val, grad: None }
    }
}

impl From<Float> for () {
    fn from(_: Float) -> Self {}
}

impl Tensor for Float {
    type ModelOfTensor = ();
    type ExecutionContext = ();
    type DiffableOperation = Operation;
    type Scalar = f32;

    fn new(_: (), requires_grad: bool) -> Self {
        Self { val: 0.0, grad: if requires_grad { Some(0.0) } else { None } }
    }

    fn get_scalar(&self) -> Option<f32> {
        Some(self.val)
    }

    fn copy_values_into(&self, dest: &mut Self) {
        dest.val = self.val;
    }

    fn zero_grad(&mut self) {
        if let Some(grad) = self.grad.as_mut() {
            *grad = 0.0;
        }
    }

    fn set_grad_to_unit(&mut self) {
        *self.grad.as_mut().unwrap() = 1.0;
    }
}

#[derive(Clone, Copy, Debug, PartialEq)]
pub enum Operation {
    Add,
    Sub,
    Mul,
    Abs,
    Inc(f32),
}

impl Operation {
    fn arity(&self) -> usize {
        match self {
            Operation::Add | Operation::Sub | Operation::Mul => 2,
            Operation::Abs | Operation::Inc(_) => 1,
        }
    }
}

fn bump(slot: &mut Float, by: f32) {
    if let Some(grad) = slot.grad.as_mut() {
        *grad += by;
    }
}

impl DiffableOperation<Float, (), ()> for Operation {
    fn output_tensor(&self, inputs: &[()]) -> Result<(), String> {
        if inputs.len() != self.arity() {
            Err(String::from("Invalid number of arguments!"))
        } else {
            Ok(())
        }
    }

    fn forward(&self, _: &mut (), inputs: &[&Float], output: &mut Float) {
        output.val = match self {
            Operation::Add => inputs[0].val + inputs[1].val,
            Operation::Sub => inputs[0].val - inputs[1].val,
            Operation::Mul => inputs[0].val * inputs[1].val,
            Operation::Abs => inputs[0].val.abs(),
            Operation::Inc(by) => inputs[0].val.abs() + by,
        };
    }

    fn backward(&self, _: &mut (), output: &Float, inputs: &mut [Float]) {
        let seed = output.grad.unwrap();
        match self {
            Operation::Add => {
                bump(&mut inputs[0], seed);
                bump(&mut inputs[1], seed);
            }
            Operation::Sub => {
                bump(&mut inputs[0], seed);
                bump(&mut inputs[1], -seed);
            }
            Operation::Mul => {
                let (left, right) = (inputs[0].val, inputs[1].val);
                bump(&mut inputs[0], seed * right);
                bump(&mut inputs[1], seed * left);
            }
            Operation::Abs => {
                let sign = if inputs[0].val > 0.0 {
                    1.0
                } else if inputs[0].val == 0.0 {
                    0.0
                } else {
                    -1.0
                };
                bump(&mut inputs[0], seed * sign);
            }
            Operation::Inc(_) => bump(&mut inputs[0], seed),
        }
    }
}

fn op(builder: &mut GraphBuilder<Float>, operation: Operation, inputs: &[Node]) -> Node {
    builder.create_result_of_operation(operation, inputs).unwrap()
}

fn grad_of(graph: &Graph<Float>, weight: &str) -> f32 {
    graph.get_weights(weight).unwrap().grad.unwrap()
}

/// `((w * (a * b)) + b) + a` over inputs `a`, `b` and weight `w`.
fn nested_sum() -> Graph<Float> {
    let mut builder = GraphBuilder::default();
    let a = builder.create_input("a", ()).unwrap();
    let b = builder.create_input("b", ()).unwrap();
    let w = builder.create_weights("w", ()).unwrap();
    let ab = op(&mut builder, Operation::Mul, &[a, b]);
    let wab = op(&mut builder, Operation::Mul, &[w, ab]);
    let plus_b = op(&mut builder, Operation::Add, &[wab, b]);
    op(&mut builder, Operation::Add, &[plus_b, a]);
    builder.build(()).unwrap()
}

/// `(a * x + b) - y` over weights `a`, `b` and inputs `x`, `y`.
fn line_minus_target() -> Graph<Float> {
    let mut builder = GraphBuilder::default();
    let a = builder.create_weights("a", ()).unwrap();
    let b = builder.create_weights("b", ()).unwrap();
    let x = builder.create_input("x", ()).unwrap();
    let y = builder.create_input("y", ()).unwrap();
    let ax = op(&mut builder, Operation::Mul, &[a, x]);
    let line = op(&mut builder, Operation::Add, &[ax, b]);
    op(&mut builder, Operation::Sub, &[line, y]);
    builder.build(()).unwrap()
}

fn fed_line() -> Graph<Float> {
    let mut graph = line_minus_target();
    graph.store_weights("a", &Float::from(1.0)).unwrap();
    graph.store_weights("b", &Float::from(0.0)).unwrap();
    graph.store_input("x", &Float::from(3.0)).unwrap();
    graph.store_input("y", &Float::from(2.0)).unwrap();
    graph
}

#[test]
fn nested_sum_evaluates_to_thirty_five() {
    let mut graph = nested_sum();
    graph.store_input("a", &Float::from(3.0)).unwrap();
    graph.store_input("b", &Float::from(2.0)).unwrap();
    graph.store_weights("w", &Float::from(5.0)).unwrap();
    assert_eq!(graph.forward(), Ok(35.0));
}

#[test]
fn line_minus_target_value_and_gradients() {
    let mut graph = fed_line();
    assert_eq!(graph.forward(), Ok(1.0));
    graph.zero_grads();
    graph.backward();
    assert_eq!(grad_of(&graph, "a"), 3.0);
    assert_eq!(grad_of(&graph, "b"), 1.0);
}

#[test]
fn product_gradient_is_the_other_factor() {
    let mut builder = GraphBuilder::<Float>::default();
    let a = builder.create_weights("a", ()).unwrap();
    let b = builder.create_weights("b", ()).unwrap();
    op(&mut builder, Operation::Mul, &[a, b]);
    let mut graph = builder.build(()).unwrap();
    graph.store_weights("a", &Float::from(4.0)).unwrap();
    graph.store_weights("b", &Float::from(7.0)).unwrap();
    graph.zero_grads();
    assert_eq!(graph.forward(), Ok(28.0));
    graph.backward();
    assert_eq!(grad_of(&graph, "a"), 7.0);
    assert_eq!(grad_of(&graph, "b"), 4.0);
}

#[test]
fn forward_twice_reports_the_same_scalar() {
    let mut graph = fed_line();
    let first = graph.forward();
    let second = graph.forward();
    assert_eq!(first, Ok(1.0));
    assert_eq!(second, first);
    let mut other = nested_sum();
    other.store_input("a", &Float::from(3.0)).unwrap();
    other.store_input("b", &Float::from(2.0)).unwrap();
    other.store_weights("w", &Float::from(5.0)).unwrap();
    assert_eq!(other.forward(), other.forward());
}

#[test]
fn backward_without_reset_adds_to_gradients() {
    let mut builder = GraphBuilder::<Float>::default();
    let a = builder.create_weights("a", ()).unwrap();
    let b = builder.create_weights("b", ()).unwrap();
    op(&mut builder, Operation::Mul, &[a, b]);
    let mut graph = builder.build(()).unwrap();
    graph.store_weights("a", &Float::from(4.0)).unwrap();
    graph.store_weights("b", &Float::from(7.0)).unwrap();
    graph.forward().unwrap();
    graph.backward();
    graph.backward();
    assert_eq!(grad_of(&graph, "a"), 14.0);
    assert_eq!(grad_of(&graph, "b"), 8.0);
    graph.zero_grads();
    graph.backward();
    assert_eq!(grad_of(&graph, "a"), 7.0);
    assert_eq!(grad_of(&graph, "b"), 4.0);
}

#[test]
fn backward_without_reset_adds_along_a_chain() {
    let mut graph = fed_line();
    graph.forward().unwrap();
    graph.backward();
    assert_eq!(grad_of(&graph, "a"), 3.0);
    assert_eq!(grad_of(&graph, "b"), 1.0);
    // The inner slots keep what the first pass gave them: the sum holds 2
    // after the second pass and the product 1 + 2, so `b` receives 2 more and
    // `a` receives 3 * x more.
    graph.backward();
    assert_eq!(grad_of(&graph, "a"), 12.0);
    assert_eq!(grad_of(&graph, "b"), 3.0);
}

#[test]
fn a_node_that_feeds_two_consumers_sums_both_contributions() {
    let mut builder = GraphBuilder::<Float>::default();
    let w = builder.create_weights("w", ()).unwrap();
    let x = builder.create_input("x", ()).unwrap();
    let wx = op(&mut builder, Operation::Mul, &[w, x]);
    op(&mut builder, Operation::Add, &[wx, w]);
    let mut graph = builder.build(()).unwrap();
    graph.store_weights("w", &Float::from(2.0)).unwrap();
    graph.store_input("x", &Float::from(5.0)).unwrap();
    assert_eq!(graph.forward(), Ok(12.0));
    graph.zero_grads();
    graph.backward();
    assert_eq!(grad_of(&graph, "w"), 6.0);
}

#[test]
fn two_disconnected_roots_are_rejected() {
    let mut builder = GraphBuilder::<Float>::default();
    let a = builder.create_weights("a", ()).unwrap();
    let b = builder.create_weights("b", ()).unwrap();
    op(&mut builder, Operation::Abs, &[a]);
    op(&mut builder, Operation::Abs, &[b]);
    assert_eq!(builder.build(()).err(), Some(GraphError::RootCount));
}

#[test]
fn an_empty_builder_is_rejected() {
    let builder = GraphBuilder::<Float>::default();
    assert_eq!(builder.build(()).err(), Some(GraphError::RootCount));
}

#[test]
fn a_weight_as_sole_root_is_rejected() {
    let mut builder = GraphBuilder::<Float>::default();
    builder.create_weights("w", ()).unwrap();
    assert_eq!(builder.build(()).err(), Some(GraphError::RootIsWeight));
}

#[test]
fn an_input_as_sole_root_is_rejected() {
    let mut builder = GraphBuilder::<Float>::default();
    builder.create_input("x", ()).unwrap();
    assert_eq!(builder.build(()).err(), Some(GraphError::RootIsInput));
}

#[test]
fn a_duplicated_input_node_is_rejected() {
    let mut builder = GraphBuilder::<Float>::default();
    let a = builder.create_weights("a", ()).unwrap();
    assert_eq!(
        builder.create_result_of_operation(Operation::Mul, &[a, a]),
        Err(GraphError::AliasedInput)
    );
    // The refusal left the builder as it was: the weight is still its root.
    assert_eq!(builder.build(()).err(), Some(GraphError::RootIsWeight));
}

#[test]
fn a_duplicate_identifier_is_rejected() {
    let mut builder = GraphBuilder::<Float>::default();
    let x = builder.create_input("x", ()).unwrap();
    assert_eq!(builder.create_input("x", ()), Err(GraphError::DuplicateId));
    assert_eq!(builder.create_weights("x", ()), Err(GraphError::DuplicateId));
    let w = builder.create_weights("w", ()).unwrap();
    assert_eq!(builder.create_input("w", ()), Err(GraphError::DuplicateId));
    assert_eq!((x.index(), w.index()), (0, 1));
}

#[test]
fn a_wrong_arity_is_rejected_with_the_operations_text() {
    let mut builder = GraphBuilder::<Float>::default();
    let a = builder.create_weights("a", ()).unwrap();
    let b = builder.create_weights("b", ()).unwrap();
    assert_eq!(
        builder.create_result_of_operation(Operation::Abs, &[a, b]),
        Err(GraphError::InvalidOperation(String::from("Invalid number of arguments!")))
    );
    assert_eq!(
        builder.create_result_of_operation(Operation::Add, &[a]),
        Err(GraphError::InvalidOperation(String::from("Invalid number of arguments!")))
    );
    // Nothing was added: the next node takes the next free position.
    assert_eq!(op(&mut builder, Operation::Add, &[a, b]).index(), 2);
}

#[test]
fn a_node_of_another_builder_is_rejected() {
    let mut big = GraphBuilder::<Float>::default();
    big.create_weights("a", ()).unwrap();
    let far = big.create_weights("b", ()).unwrap();
    let mut small = GraphBuilder::<Float>::default();
    let near = small.create_weights("a", ()).unwrap();
    assert_eq!(
        small.create_result_of_operation(Operation::Add, &[near, far]),
        Err(GraphError::UnknownNode)
    );
    assert!(small.node(far).is_none());
    assert!(small.node(near).is_some());
}

#[test]
fn aliasing_is_reported_before_an_unknown_node() {
    let mut big = GraphBuilder::<Float>::default();
    big.create_weights("a", ()).unwrap();
    let far = big.create_weights("b", ()).unwrap();
    let mut small = GraphBuilder::<Float>::default();
    small.create_weights("a", ()).unwrap();
    assert_eq!(
        small.create_result_of_operation(Operation::Add, &[far, far]),
        Err(GraphError::AliasedInput)
    );
}

#[test]
fn node_records_are_checked_before_they_join() {
    let mut builder = GraphBuilder::<Float>::default();
    let a = builder.create_weights("a", ()).unwrap();
    let b = builder.create_input("b", ()).unwrap();
    let taken = NodeData::<Float>::new(Some(String::from("a")), None, (), true, &[]);
    assert_eq!(builder.create_node(taken), Err(GraphError::DuplicateId));
    let twice = NodeData::<Float>::new(None, Some(Operation::Add), (), true, &[a, a]);
    assert_eq!(builder.create_node(twice), Err(GraphError::AliasedInput));
    let orphaned = NodeData::<Float>::new(None, None, (), true, &[a]);
    assert_eq!(builder.create_node(orphaned), Err(GraphError::MalformedNode));
    let named = NodeData::<Float>::new(Some(String::from("c")), Some(Operation::Add), (), true, &[a, b]);
    assert_eq!(builder.create_node(named), Err(GraphError::MalformedNode));
    let flat = NodeData::<Float>::new(None, Some(Operation::Add), (), false, &[a, b]);
    assert_eq!(builder.create_node(flat), Err(GraphError::MalformedNode));
    let sum = NodeData::<Float>::new(None, Some(Operation::Add), (), true, &[a, b]);
    let node = builder.create_node(sum).unwrap();
    assert_eq!(node.index(), 2);
    let mut graph = builder.build(()).unwrap();
    graph.store_weights("a", &Float::from(1.5)).unwrap();
    graph.store_input("b", &Float::from(2.0)).unwrap();
    assert_eq!(graph.forward(), Ok(3.5));
}

#[test]
fn a_record_with_a_parent_that_does_not_exist_is_rejected() {
    let mut big = GraphBuilder::<Float>::default();
    big.create_weights("a", ()).unwrap();
    let far = big.create_weights("b", ()).unwrap();
    let mut small = GraphBuilder::<Float>::default();
    small.create_weights("a", ()).unwrap();
    let record = NodeData::<Float>::new(None, Some(Operation::Abs), (), true, &[far]);
    assert_eq!(small.create_node(record), Err(GraphError::UnknownNode));
}

fn position_of_output(graph: &Graph<Float>, node: Node) -> Option<usize> {
    let queue = graph.forward_queue();
    (0..queue.len()).find(|&k| queue.get(k).unwrap().output() == node)
}

#[test]
fn forward_queue_is_a_topological_order() {
    for graph in [nested_sum(), line_minus_target()] {
        let queue = graph.forward_queue();
        for k in 0..queue.len() {
            let entry = queue.get(k).unwrap();
            for input in entry.inputs() {
                // An input is a leaf, or an earlier entry computes it.
                match position_of_output(&graph, *input) {
                    Some(at) => assert!(at < k),
                    None => assert!(input.index() < 4),
                }
            }
            // No earlier entry, nor the entry itself, reads the output.
            for earlier in 0..=k {
                assert!(!queue.get(earlier).unwrap().inputs().contains(&entry.output()));
            }
        }
        assert!(queue.get(queue.len()).is_none());
    }
}

#[test]
fn forward_queue_lists_each_operation_once() {
    let graph = nested_sum();
    let queue = graph.forward_queue();
    assert_eq!(queue.len(), 4);
    let outputs: Vec<usize> = (0..4).map(|k| queue.get(k).unwrap().output().index()).collect();
    assert_eq!(outputs, vec![3, 4, 5, 6]);
    let first = queue.get(0).unwrap();
    assert_eq!(*first.operation(), Operation::Mul);
    assert_eq!(first.inputs().iter().map(|n| n.index()).collect::<Vec<_>>(), vec![0, 1]);
    assert_eq!(graph.root().index(), 6);
}

#[test]
fn backward_queue_is_the_forward_queue_reversed() {
    for graph in [nested_sum(), line_minus_target()] {
        let forward = graph.forward_queue();
        let backward = graph.backward_queue();
        assert_eq!(forward.len(), backward.len());
        let n = forward.len();
        for k in 0..n {
            let there = forward.get(k).unwrap();
            let back = backward.get(n - 1 - k).unwrap();
            assert_eq!(there.output(), back.output());
            assert_eq!(there.inputs(), back.inputs());
            assert_eq!(there.operation(), back.operation());
        }
    }
}

#[test]
fn the_sweep_serves_the_frontier_first_come_first_out() {
    let mut builder = GraphBuilder::<Float>::default();
    let a = builder.create_weights("a", ()).unwrap();
    let _b = builder.create_weights("b", ()).unwrap();
    let c = op(&mut builder, Operation::Abs, &[a]);
    let d = builder.create_input("d", ()).unwrap();
    let _e = op(&mut builder, Operation::Add, &[c, d]);
    let order: Vec<usize> = builder.topological_order().iter().map(|n| n.index()).collect();
    assert_eq!(order, vec![0, 1, 3, 2, 4]);
}

#[test]
fn the_sweep_waits_for_the_last_parent() {
    let mut builder = GraphBuilder::<Float>::default();
    let a = builder.create_weights("a", ()).unwrap();
    let b = op(&mut builder, Operation::Abs, &[a]);
    let c = op(&mut builder, Operation::Abs, &[b]);
    let d = op(&mut builder, Operation::Add, &[c, a]);
    let _e = op(&mut builder, Operation::Mul, &[a, d]);
    let order: Vec<usize> = builder.topological_order().iter().map(|n| n.index()).collect();
    assert_eq!(order, vec![0, 1, 2, 3, 4]);
    let empty = GraphBuilder::<Float>::default();
    assert!(empty.topological_order().is_empty());
}

#[test]
fn a_graph_scheduled_out_of_creation_order_computes_the_same() {
    // c = |a| is created before the input d, so the sweep schedules d before c.
    let mut builder = GraphBuilder::<Float>::default();
    let a = builder.create_weights("a", ()).unwrap();
    let c = op(&mut builder, Operation::Abs, &[a]);
    let d = builder.create_input("d", ()).unwrap();
    let e = op(&mut builder, Operation::Sub, &[c, d]);
    op(&mut builder, Operation::Abs, &[e]);
    let mut graph = builder.build(()).unwrap();
    graph.store_weights("a", &Float::from(-4.0)).unwrap();
    graph.store_input("d", &Float::from(6.0)).unwrap();
    assert_eq!(graph.forward(), Ok(2.0));
    graph.zero_grads();
    graph.backward();
    // d||a| - d|/da = sign(|a| - d) * sign(a) = (-1) * (-1)
    assert_eq!(grad_of(&graph, "a"), 1.0);
}

#[test]
fn an_unknown_identifier_is_a_recoverable_error() {
    let mut graph = fed_line();
    assert_eq!(graph.store_input("z", &Float::from(1.0)), Err(GraphError::UnknownId));
    assert_eq!(graph.store_weights("x", &Float::from(1.0)), Err(GraphError::UnknownId));
    assert_eq!(graph.store_input("a", &Float::from(1.0)), Err(GraphError::UnknownId));
    assert_eq!(graph.get_input("a").err(), Some(GraphError::UnknownId));
    assert_eq!(graph.get_weights("x").err(), Some(GraphError::UnknownId));
    assert_eq!(graph.get_input_mut("").err(), Some(GraphError::UnknownId));
    assert_eq!(graph.get_weights_mut("y").err(), Some(GraphError::UnknownId));
    // Nothing was stored on the way.
    assert_eq!(graph.forward(), Ok(1.0));
}

#[test]
fn storing_copies_the_value_and_keeps_the_gradient() {
    let mut graph = fed_line();
    graph.forward().unwrap();
    graph.zero_grads();
    graph.backward();
    let fresh = Float { val: 10.0, grad: Some(99.0) };
    graph.store_weights("a", &fresh).unwrap();
    assert_eq!(*graph.get_weights("a").unwrap(), Float { val: 10.0, grad: Some(3.0) });
    graph.store_input("x", &fresh).unwrap();
    assert_eq!(*graph.get_input("x").unwrap(), Float { val: 10.0, grad: None });
    assert_eq!(graph.forward(), Ok(98.0));
}

#[test]
fn zero_grads_resets_every_gradient_and_no_value() {
    let mut graph = fed_line();
    graph.forward().unwrap();
    graph.backward();
    graph.zero_grads();
    assert_eq!(*graph.get_weights("a").unwrap(), Float { val: 1.0, grad: Some(0.0) });
    assert_eq!(*graph.get_weights("b").unwrap(), Float { val: 0.0, grad: Some(0.0) });
    assert_eq!(*graph.get_input("x").unwrap(), Float { val: 3.0, grad: None });
    assert_eq!(*graph.get_input("y").unwrap(), Float { val: 2.0, grad: None });
}

#[test]
fn slots_start_from_their_descriptors() {
    let graph = line_minus_target();
    assert_eq!(*graph.get_weights("b").unwrap(), Float { val: 0.0, grad: Some(0.0) });
    assert_eq!(*graph.get_input("y").unwrap(), Float { val: 0.0, grad: None });
}

#[test]
fn weights_are_listed_in_registration_order() {
    let graph = line_minus_target();
    assert_eq!(graph.weight_ids(), vec![String::from("a"), String::from("b")]);
    assert_eq!(nested_sum().weight_ids(), vec![String::from("w")]);
}

#[test]
fn a_slot_can_be_changed_in_place() {
    let mut graph = fed_line();
    graph.get_weights_mut("a").unwrap().val = 2.0;
    graph.get_input_mut("y").unwrap().val = 0.5;
    assert_eq!(graph.forward(), Ok(5.5));
    assert_eq!(graph.get_weights("a").unwrap().val, 2.0);
}

#[test]
fn gradient_descent_fits_a_line() {
    let mut builder = GraphBuilder::<Float>::default();
    let a = builder.create_weights("a", ()).unwrap();
    let b = builder.create_weights("b", ()).unwrap();
    let x = builder.create_input("x", ()).unwrap();
    let y = builder.create_input("y", ()).unwrap();
    let ax = op(&mut builder, Operation::Mul, &[a, x]);
    let line = op(&mut builder, Operation::Add, &[ax, b]);
    let shifted = op(&mut builder, Operation::Inc(1.0), &[line]);
    let diff = op(&mut builder, Operation::Sub, &[shifted, y]);
    op(&mut builder, Operation::Abs, &[diff]);
    let mut graph = builder.build(()).unwrap();
    graph.store_weights("a", &Float::from(1.0)).unwrap();
    graph.store_weights("b", &Float::from(0.0)).unwrap();
    let rate = 0.01;
    let mut batch_loss = 1f32;
    let mut rounds = 0;
    while batch_loss > 0.01 && rounds < 100_000 {
        batch_loss = 0.0;
        for (input, target) in [(0.0, 3.0), (2.0, 7.0)] {
            graph.store_input("x", &Float::from(input)).unwrap();
            graph.store_input("y", &Float::from(target)).unwrap();
            batch_loss += graph.forward().unwrap();
            graph.zero_grads();
            graph.backward();
            for id in graph.weight_ids() {
                let weight = graph.get_weights_mut(&id).unwrap();
                weight.val -= rate * weight.grad.unwrap();
            }
        }
        rounds += 1;
    }
    assert!(batch_loss <= 0.01);
    assert!((graph.get_weights("a").unwrap().val - 2.0).abs() < 0.1);
    assert!((graph.get_weights("b").unwrap().val - 2.0).abs() < 0.1);
}

#[test]
fn a_queue_replays_its_entries_in_the_order_pushed() {
    let mut forward = OperationQueue::<Float, false>::new();
    assert_eq!(forward.len(), 0);
    let nodes: Vec<Node> = {
        let mut builder = GraphBuilder::<Float>::default();
        (0..4).map(|i| builder.create_weights(&i.to_string(), ()).unwrap()).collect()
    };
    forward.push(Operation::Add, &[nodes[0], nodes[1]], nodes[2]);
    forward.push(Operation::Mul, &[nodes[2], nodes[0]], nodes[3]);
    assert_eq!(forward.len(), 2);
    assert_eq!(forward.get(1).unwrap().output(), nodes[3]);
    let mut slots: Vec<Float> = [2.0, 3.0, 0.0, 0.0]
        .iter()
        .map(|v| Float { val: *v, grad: Some(0.0) })
        .collect();
    forward.execute_on(&mut (), &mut slots);
    assert_eq!(slots.iter().map(|s| s.val).collect::<Vec<_>>(), vec![2.0, 3.0, 5.0, 10.0]);

    let mut backward = OperationQueue::<Float, true>::new();
    backward.push(Operation::Mul, &[nodes[2], nodes[0]], nodes[3]);
    backward.push(Operation::Add, &[nodes[0], nodes[1]], nodes[2]);
    slots[3].grad = Some(1.0);
    backward.execute_on(&mut (), &mut slots);
    assert_eq!(
        slots.iter().map(|s| s.grad.unwrap()).collect::<Vec<_>>(),
        vec![7.0, 2.0, 2.0, 1.0]
    );
    assert_eq!(slots.iter().map(|s| s.val).collect::<Vec<_>>(), vec![2.0, 3.0, 5.0, 10.0]);
}

#[test]
fn backward_lends_inputs_in_the_order_listed() {
    // Sub gives +seed to its first input and -seed to its second, whichever
    // of the two was created first.
    let mut builder = GraphBuilder::<Float>::default();
    let a = builder.create_weights("a", ()).unwrap();
    let b = builder.create_weights("b", ()).unwrap();
    op(&mut builder, Operation::Sub, &[b, a]);
    let mut graph = builder.build(()).unwrap();
    graph.store_weights("a", &Float::from(1.0)).unwrap();
    graph.store_weights("b", &Float::from(5.0)).unwrap();
    assert_eq!(graph.forward(), Ok(4.0));
    graph.zero_grads();
    graph.backward();
    assert_eq!(grad_of(&graph, "a"), -1.0);
    assert_eq!(grad_of(&graph, "b"), 1.0);
}

#[test]
fn a_forward_pass_leaves_inputs_and_weights_alone() {
    let mut graph = fed_line();
    graph.zero_grads();
    graph.backward();
    let before: Vec<Float> = ["a", "b"]
        .iter()
        .map(|id| *graph.get_weights(id).unwrap())
        .chain(["x", "y"].iter().map(|id| *graph.get_input(id).unwrap()))
        .collect();
    graph.forward().unwrap();
    let after: Vec<Float> = ["a", "b"]
        .iter()
        .map(|id| *graph.get_weights(id).unwrap())
        .chain(["x", "y"].iter().map(|id| *graph.get_input(id).unwrap()))
        .collect();
    assert_eq!(before, after);
}

#[test]
fn a_builder_compiles_more_than_once() {
    let mut builder = GraphBuilder::<Float>::default();
    let a = builder.create_weights("a", ()).unwrap();
    let first = op(&mut builder, Operation::Abs, &[a]);
    let mut small = builder.build(()).unwrap();
    op(&mut builder, Operation::Inc(2.0), &[first]);
    let mut large = builder.build(()).unwrap();
    small.store_weights("a", &Float::from(-3.0)).unwrap();
    large.store_weights("a", &Float::from(-3.0)).unwrap();
    assert_eq!(small.forward(), Ok(3.0));
    assert_eq!(large.forward(), Ok(5.0));
    assert_eq!(small.forward_queue().len(), 1);
    assert_eq!(large.forward_queue().len(), 2);
}

#[test]
fn a_record_tells_what_it_reads() {
    let mut builder = GraphBuilder::<Float>::default();
    let a = builder.create_weights("a", ()).unwrap();
    let b = builder.create_input("b", ()).unwrap();
    let sum = op(&mut builder, Operation::Sub, &[b, a]);
    assert_eq!(builder.node(sum).unwrap().parents(), &[b, a]);
    assert!(builder.node(a).unwrap().parents().is_empty());
    let record = NodeData::<Float>::new(None, Some(Operation::Abs), (), true, &[sum]);
    assert_eq!(record.parents(), &[sum]);
}

#[test]
fn backward_queue_serves_every_consumer_of_a_node_before_the_node() {
    for graph in [nested_sum(), line_minus_target()] {
        let queue = graph.backward_queue();
        for k in 0..queue.len() {
            let produced = queue.get(k).unwrap().output();
            for j in 0..queue.len() {
                if queue.get(j).unwrap().inputs().contains(&produced) {
                    assert!(j < k);
                }
            }
        }
    }
}

#[test]
fn a_forward_replay_may_read_one_slot_twice() {
    let nodes: Vec<Node> = {
        let mut builder = GraphBuilder::<Float>::default();
        (0..2).map(|i| builder.create_weights(&i.to_string(), ()).unwrap()).collect()
    };
    let mut forward = OperationQueue::<Float, false>::new();
    forward.push(Operation::Mul, &[nodes[0], nodes[0]], nodes[1]);
    let mut slots = vec![Float::from(6.0), Float::from(0.0)];
    forward.execute_on(&mut (), &mut slots);
    assert_eq!(slots[1].val, 36.0);
    assert_eq!(slots[0].val, 6.0);
}
