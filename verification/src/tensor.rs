use vstd::prelude::*;

use crate::operation::DiffableOperation;

verus! {

/// The capabilities the engine needs from a value type.
///
/// The engine never looks inside a value. Each executable method is paired
/// with a model function that names what the method returns, so that the
/// engine's contracts can say exactly which calls produced the content of a
/// slot. An implementation may define the model functions, or leave them at
/// their defaults, which stand for some fixed but unknown function of the
/// arguments.
///
/// The pairing is a demand on implementations: the outcome of a method must
/// depend on its arguments alone. The engine takes this on trust. What it
/// proves of a pass holds of value types that meet the demand, and nothing
/// holds an implementation that is not itself verified to it.
pub trait Tensor: Sized + Default + core::fmt::Debug {
    /// A value-free description of a value's shape and type.
    type ModelOfTensor: Copy + core::fmt::Debug + From<Self>;

    /// Scratch state owned by a graph and lent to every operation it runs.
    type ExecutionContext: core::fmt::Debug;

    /// The operations that compute values of this type.
    type DiffableOperation: Copy + core::fmt::Debug + DiffableOperation<
        Self,
        Self::ExecutionContext,
        Self::ModelOfTensor,
    >;

    /// The number type a scalar value is reported in.
    type Scalar;

    /// The value that `new` builds.
    open spec fn new_spec(desc: Self::ModelOfTensor, requires_grad: bool) -> Self {
        arbitrary()
    }

    /// Builds the initial value for a descriptor; gradient storage exists only
    /// when `requires_grad` is set.
    fn new(desc: Self::ModelOfTensor, requires_grad: bool) -> (t: Self)
        ensures
            t == Self::new_spec(desc, requires_grad),
    ;

    /// The scalar that `get_scalar` reports, `None` for a value that is not a
    /// scalar.
    open spec fn scalar_spec(&self) -> Option<Self::Scalar> {
        arbitrary()
    }

    /// Reads the forward value as a scalar, if it is one.
    fn get_scalar(&self) -> (s: Option<Self::Scalar>)
        ensures
            s == self.scalar_spec(),
    ;

    /// What `dest` becomes when the forward value of `self` is copied into it.
    open spec fn copy_values_spec(&self, dest: Self) -> Self {
        arbitrary()
    }

    /// Copies the forward value of `self` into `dest`, leaving the gradient of
    /// `dest` as it was.
    fn copy_values_into(&self, dest: &mut Self)
        ensures
            *final(dest) == self.copy_values_spec(*old(dest)),
    ;

    /// The value after its gradient was reset.
    open spec fn zero_grad_spec(self) -> Self {
        arbitrary()
    }

    /// Resets the gradient to the additive identity.
    fn zero_grad(&mut self)
        ensures
            *final(self) == old(self).zero_grad_spec(),
    ;

    /// The value after its gradient was seeded.
    open spec fn set_grad_to_unit_spec(self) -> Self {
        arbitrary()
    }

    /// Sets the gradient to the multiplicative identity.
    fn set_grad_to_unit(&mut self)
        ensures
            *final(self) == old(self).set_grad_to_unit_spec(),
    ;
}

} // verus!
