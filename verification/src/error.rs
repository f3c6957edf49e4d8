use vstd::prelude::*;

verus! {

/// The ways in which a call into this crate can be refused.
///
/// Each of them is a usage error: the operation that reports one leaves the
/// state it was given untouched.
#[derive(Clone, Copy, Debug, PartialEq, Eq, Structural)]
pub enum FractError {
    /// A mutator for one motion model was called while another was active.
    WrongVariant,
    /// A grid was asked for with no columns or no rows.
    InvalidDimensions,
    /// A dirty checker was handed a vector of another length than it tracks.
    LengthMismatch,
    /// A band of a banded fill did not come back.
    ComputeWorkerFailure,
}

impl FractError {
    /// What went wrong, in words.
    pub fn message(&self) -> (text: &'static str)
        ensures
            text@ == match self {
                FractError::WrongVariant => "another motion is active than the one to be changed"@,
                FractError::InvalidDimensions => "a grid needs at least one column and one row"@,
                FractError::LengthMismatch => "the number of scalars differs from the number that is watched"@,
                FractError::ComputeWorkerFailure => "a band of the grid was not computed"@,
            },
    {
        match self {
            FractError::WrongVariant => "another motion is active than the one to be changed",
            FractError::InvalidDimensions => "a grid needs at least one column and one row",
            FractError::LengthMismatch => "the number of scalars differs from the number that is watched",
            FractError::ComputeWorkerFailure => "a band of the grid was not computed",
        }
    }
}

} // verus!
