use diffable::{DiffableOperation, Graph, GraphBuilder, GraphError, Node, Tensor};

/// A vector of a fixed width; a scalar is a vector of width one.
#[derive(Clone, Debug, Default, PartialEq)]
pub struct Vector {
    vals: Vec<f64>,
    grads: Option<Vec<f64>>,
}

#[derive(Clone, Copy, Debug, PartialEq)]
pub struct Width(usize);

impl From<Vector> for Width {
    fn from(v: Vector) -> Self {
        Width(v.vals.len())
    }
}

/// Counts the calls that a graph made.
#[derive(Debug, Default, PartialEq)]
pub struct Tally {
    forward: usize,
    backward: usize,
}

fn vector(vals: &[f64]) -> Vector {
    Vector { vals: vals.to_vec(), grads: None }
}

impl Tensor for Vector {
    type ModelOfTensor = Width;
    type ExecutionContext = Tally;
    type DiffableOperation = Step;
    type Scalar = f64;

    fn new(desc: Width, requires_grad: bool) -> Self {
        Self { vals: vec![0.0; desc.0], grads: if requires_grad { Some(vec![0.0; desc.0]) } else { None } }
    }

    fn get_scalar(&self) -> Option<f64> {
        if self.vals.len() == 1 {
            Some(self.vals[0])
        } else {
            None
        }
    }

    fn copy_values_into(&self, dest: &mut Self) {
        dest.vals = self.vals.clone();
    }

    fn zero_grad(&mut self) {
        if let Some(grads) = self.grads.as_mut() {
            grads.iter_mut().for_each(|g| *g = 0.0);
        }
    }

    fn set_grad_to_unit(&mut self) {
        self.grads.as_mut().unwrap().iter_mut().for_each(|g| *g = 1.0);
    }
}

#[derive(Clone, Copy, Debug, PartialEq)]
pub enum Step {
    /// Adds two vectors of one width.
    Add,
    /// The inner product of two vectors of one width.
    Dot,
    /// Adds its input to what the output slot holds.
    Pile,
    /// Writes the number of forward calls made so far.
    Stamp,
    /// A constant vector of the given width: reads nothing.
    Ones(usize),
}

impl DiffableOperation<Vector, Tally, Width> for Step {
    fn output_tensor(&self, inputs: &[Width]) -> Result<Width, String> {
        match self {
            Step::Add | Step::Dot => {
                if inputs.len() != 2 {
                    Err(format!("expected 2 inputs, got {}", inputs.len()))
                } else if inputs[0] != inputs[1] {
                    Err(format!("widths differ: {} and {}", inputs[0].0, inputs[1].0))
                } else if *self == Step::Add {
                    Ok(inputs[0])
                } else {
                    Ok(Width(1))
                }
            }
            Step::Pile | Step::Stamp => {
                if inputs.len() != 1 {
                    Err(format!("expected 1 input, got {}", inputs.len()))
                } else {
                    Ok(if *self == Step::Pile { inputs[0] } else { Width(1) })
                }
            }
            Step::Ones(width) => {
                if inputs.is_empty() {
                    Ok(Width(*width))
                } else {
                    Err(format!("expected no input, got {}", inputs.len()))
                }
            }
        }
    }

    fn forward(&self, ctx: &mut Tally, inputs: &[&Vector], output: &mut Vector) {
        match self {
            Step::Add => {
                output.vals = inputs[0].vals.iter().zip(&inputs[1].vals).map(|(a, b)| a + b).collect()
            }
            Step::Dot => {
                output.vals = vec![inputs[0].vals.iter().zip(&inputs[1].vals).map(|(a, b)| a * b).sum()]
            }
            Step::Pile => {
                for (o, i) in output.vals.iter_mut().zip(&inputs[0].vals) {
                    *o += i;
                }
            }
            Step::Stamp => output.vals = vec![ctx.forward as f64],
            Step::Ones(width) => output.vals = vec![1.0; *width],
        }
        ctx.forward += 1;
    }

    fn backward(&self, ctx: &mut Tally, output: &Vector, inputs: &mut [Vector]) {
        let seed = output.grads.as_ref().unwrap();
        match self {
            Step::Add | Step::Pile => {
                for input in inputs.iter_mut() {
                    if let Some(grads) = input.grads.as_mut() {
                        for (g, s) in grads.iter_mut().zip(seed) {
                            *g += s;
                        }
                    }
                }
            }
            Step::Dot => {
                let (left, right) = (inputs[0].vals.clone(), inputs[1].vals.clone());
                if let Some(grads) = inputs[0].grads.as_mut() {
                    for (g, r) in grads.iter_mut().zip(&right) {
                        *g += seed[0] * r;
                    }
                }
                if let Some(grads) = inputs[1].grads.as_mut() {
                    for (g, l) in grads.iter_mut().zip(&left) {
                        *g += seed[0] * l;
                    }
                }
            }
            Step::Stamp | Step::Ones(_) => {}
        }
        ctx.backward += 1;
    }
}

fn op(builder: &mut GraphBuilder<Vector>, step: Step, inputs: &[Node]) -> Node {
    builder.create_result_of_operation(step, inputs).unwrap()
}

fn grads_of(graph: &Graph<Vector>, weight: &str) -> Vec<f64> {
    graph.get_weights(weight).unwrap().grads.clone().unwrap()
}

#[test]
fn shapes_are_checked_before_any_value_exists() {
    let mut builder = GraphBuilder::<Vector>::default();
    let a = builder.create_weights("a", Width(2)).unwrap();
    let b = builder.create_input("b", Width(3)).unwrap();
    assert_eq!(
        builder.create_result_of_operation(Step::Add, &[a, b]),
        Err(GraphError::InvalidOperation(String::from("widths differ: 2 and 3")))
    );
    assert_eq!(
        builder.create_result_of_operation(Step::Dot, &[a]),
        Err(GraphError::InvalidOperation(String::from("expected 2 inputs, got 1")))
    );
    assert_eq!(
        builder.create_result_of_operation(Step::Ones(2), &[a]),
        Err(GraphError::InvalidOperation(String::from("expected no input, got 1")))
    );
}

#[test]
fn descriptors_flow_from_inputs_to_results() {
    let mut builder = GraphBuilder::<Vector>::default();
    let a = builder.create_weights("a", Width(3)).unwrap();
    let b = builder.create_input("b", Width(3)).unwrap();
    let sum = op(&mut builder, Step::Add, &[a, b]);
    // The sum has width 3: it can be added to `a`, and multiplied into a scalar.
    let twice = op(&mut builder, Step::Add, &[sum, a]);
    op(&mut builder, Step::Dot, &[twice, b]);
    let mut graph = builder.build(Tally::default()).unwrap();
    assert_eq!(graph.get_weights("a").unwrap().vals, vec![0.0, 0.0, 0.0]);
    assert_eq!(grads_of(&graph, "a"), vec![0.0, 0.0, 0.0]);
    assert_eq!(graph.get_input("b").unwrap().grads, None);
    graph.store_weights("a", &vector(&[1.0, 2.0, 3.0])).unwrap();
    graph.store_input("b", &vector(&[1.0, 0.0, -1.0])).unwrap();
    // (2a + b) . b = (3, 4, 5) . (1, 0, -1)
    assert_eq!(graph.forward(), Ok(-2.0));
    graph.zero_grads();
    graph.backward();
    assert_eq!(grads_of(&graph, "a"), vec![2.0, 0.0, -2.0]);
}

#[test]
fn inner_product_gradient_is_the_other_factor() {
    let mut builder = GraphBuilder::<Vector>::default();
    let a = builder.create_weights("a", Width(2)).unwrap();
    let b = builder.create_weights("b", Width(2)).unwrap();
    op(&mut builder, Step::Dot, &[a, b]);
    let mut graph = builder.build(Tally::default()).unwrap();
    graph.store_weights("a", &vector(&[3.0, 4.0])).unwrap();
    graph.store_weights("b", &vector(&[5.0, 6.0])).unwrap();
    graph.zero_grads();
    assert_eq!(graph.forward(), Ok(39.0));
    graph.backward();
    assert_eq!(grads_of(&graph, "a"), vec![5.0, 6.0]);
    assert_eq!(grads_of(&graph, "b"), vec![3.0, 4.0]);
}

#[test]
fn a_root_that_is_no_scalar_fails_after_the_pass() {
    let mut builder = GraphBuilder::<Vector>::default();
    let a = builder.create_weights("a", Width(2)).unwrap();
    let b = builder.create_input("b", Width(2)).unwrap();
    op(&mut builder, Step::Add, &[a, b]);
    let mut graph = builder.build(Tally::default()).unwrap();
    graph.store_weights("a", &vector(&[1.0, 2.0])).unwrap();
    graph.store_input("b", &vector(&[3.0, 4.0])).unwrap();
    assert_eq!(graph.forward(), Err(GraphError::NotScalar));
    // The pass ran all the same: the backward pass finds the sum's slot.
    graph.zero_grads();
    graph.backward();
    assert_eq!(grads_of(&graph, "a"), vec![1.0, 1.0]);
}

#[test]
fn an_operation_without_inputs_is_scheduled() {
    let mut builder = GraphBuilder::<Vector>::default();
    let ones = op(&mut builder, Step::Ones(3), &[]);
    let w = builder.create_weights("w", Width(3)).unwrap();
    op(&mut builder, Step::Dot, &[w, ones]);
    let order: Vec<usize> = builder.topological_order().iter().map(|n| n.index()).collect();
    assert_eq!(order, vec![0, 1, 2]);
    let mut graph = builder.build(Tally::default()).unwrap();
    assert_eq!(graph.forward_queue().len(), 2);
    graph.store_weights("w", &vector(&[1.0, 2.0, 4.0])).unwrap();
    assert_eq!(graph.forward(), Ok(7.0));
    graph.zero_grads();
    graph.backward();
    assert_eq!(grads_of(&graph, "w"), vec![1.0, 1.0, 1.0]);
}

#[test]
fn the_context_passes_from_one_call_to_the_next() {
    let mut builder = GraphBuilder::<Vector>::default();
    let a = builder.create_weights("a", Width(1)).unwrap();
    let b = builder.create_weights("b", Width(1)).unwrap();
    let sum = op(&mut builder, Step::Add, &[a, b]);
    let dot = op(&mut builder, Step::Dot, &[sum, a]);
    let stamp = op(&mut builder, Step::Stamp, &[b]);
    op(&mut builder, Step::Add, &[stamp, dot]);
    let mut graph = builder.build(Tally { forward: 0, backward: 0 }).unwrap();
    // The sum and the stamp are ready once `b` has left the frontier, the
    // product only after the sum: the stamp is the second entry.
    let outputs: Vec<usize> =
        (0..4).map(|k| graph.forward_queue().get(k).unwrap().output().index()).collect();
    assert_eq!(outputs, vec![2, 4, 3, 5]);
    graph.store_weights("a", &vector(&[2.0])).unwrap();
    graph.store_weights("b", &vector(&[3.0])).unwrap();
    // (a + b) * a + stamp = 10 + 1
    assert_eq!(graph.forward(), Ok(11.0));
    // Four more calls were made since the first stamp.
    assert_eq!(graph.forward(), Ok(15.0));
}

#[test]
fn an_operation_that_reads_the_context_does_not_repeat_itself() {
    let mut builder = GraphBuilder::<Vector>::default();
    let a = builder.create_weights("a", Width(1)).unwrap();
    op(&mut builder, Step::Stamp, &[a]);
    let mut graph = builder.build(Tally { forward: 40, backward: 0 }).unwrap();
    assert_eq!(graph.forward(), Ok(40.0));
    assert_eq!(graph.forward(), Ok(41.0));
}

#[test]
fn an_operation_that_adds_to_its_output_does_not_repeat_itself() {
    let mut builder = GraphBuilder::<Vector>::default();
    let a = builder.create_weights("a", Width(1)).unwrap();
    op(&mut builder, Step::Pile, &[a]);
    let mut graph = builder.build(Tally::default()).unwrap();
    graph.store_weights("a", &vector(&[2.5])).unwrap();
    assert_eq!(graph.forward(), Ok(2.5));
    assert_eq!(graph.forward(), Ok(5.0));
}

#[test]
fn operations_that_write_a_function_of_their_inputs_repeat_themselves() {
    let mut builder = GraphBuilder::<Vector>::default();
    let a = builder.create_weights("a", Width(2)).unwrap();
    let b = builder.create_input("b", Width(2)).unwrap();
    let sum = op(&mut builder, Step::Add, &[a, b]);
    op(&mut builder, Step::Dot, &[sum, a]);
    let mut graph = builder.build(Tally::default()).unwrap();
    graph.store_weights("a", &vector(&[1.0, 2.0])).unwrap();
    graph.store_input("b", &vector(&[3.0, 4.0])).unwrap();
    let first = graph.forward();
    assert_eq!(first, Ok(16.0));
    assert_eq!(graph.forward(), first);
    assert_eq!(graph.forward(), first);
}
