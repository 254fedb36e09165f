//! The ways in which the engine rejects its input.

use vstd::prelude::*;

verus! {

/// Why an operation of the engine was rejected.
#[derive(Clone, Copy, Debug, PartialEq, Eq, Structural)]
pub enum GaError {
    /// A city index lies outside the distance table.
    OutOfRange,
    /// The distance table or the population parameters are not usable.
    InvalidConfiguration,
}

} // verus!
