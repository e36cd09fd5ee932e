//! The interface of a constraint system for Schnorr-style statements.
use vstd::prelude::*;

verus! {

/// A constraint system over scalar and group variables.
pub trait SchnorrCS {
    /// A handle for a scalar variable in the constraint system.
    type ScalarVar: Copy;
    /// A handle for a group variable in the constraint system.
    type GroupVar: Copy;

    /// Adds a constraint of the form `lhs = linear_combination`.
    fn constrain(&mut self, lhs: Self::GroupVar, linear_combination: Vec<(Self::ScalarVar, Self::GroupVar)>);
}

} // verus!
