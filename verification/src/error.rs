use vstd::prelude::*;

verus! {

/// Why a graph could not be described, compiled or queried.
#[derive(Debug, PartialEq, Eq)]
pub enum GraphError {
    /// The identifier is already registered in this builder.
    DuplicateId,
    /// A node handle does not name a node of this builder.
    UnknownNode,
    /// One node was listed twice among the inputs of an operation.
    AliasedInput,
    /// A node record names parents without an operation, or an operation
    /// computes it and it carries an identifier or takes no gradient.
    MalformedNode,
    /// The operation refused its input descriptors; the text is its own.
    InvalidOperation(String),
    /// The builder has no root, or more than one.
    RootCount,
    /// The root takes no gradient: it is an input.
    RootIsInput,
    /// The root is a registered weight.
    RootIsWeight,
    /// No input or weight is registered under the identifier.
    UnknownId,
    /// The root's value is not a scalar.
    NotScalar,
}

} // verus!
