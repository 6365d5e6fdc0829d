//! Reverse-mode automatic differentiation over a graph of values.
//!
//! A [`GraphBuilder`] takes the description of a computation: inputs, weights
//! and the results of operations over nodes that exist already. It checks
//! each step against the descriptors of the values, before any value exists,
//! and compiles the description into a [`Graph`]: one slot per node, and the
//! operations scheduled in a topological order. A forward pass replays the
//! schedule and reports the value of the root; a backward pass seeds the
//! root's gradient and replays the schedule in reverse.
//!
//! The value type and the operations are the caller's: see [`Tensor`] and
//! [`DiffableOperation`].

pub mod arrival;
pub mod error;
pub mod frontier;
pub mod graph;
pub mod graph_builder;
pub mod laws;
pub mod model;
pub mod operation;
pub mod schedule;
pub mod sweep;
pub mod tensor;
pub mod topology;

pub use error::GraphError;
pub use graph::Graph;
pub use graph_builder::{GraphBuilder, Node};
pub use operation::DiffableOperation;
pub use tensor::Tensor;
