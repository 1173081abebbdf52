//! The file-mangling utilities are deliberate corruption tools that live
//! with the command-line front end, outside the box grammar; only the
//! validation error for their amount arguments is shared here.

use vstd::prelude::*;

verus! {

/// Why an amount argument was refused.
#[derive(Clone, Copy, Debug, PartialEq, Eq, Structural)]
pub enum AmountError {
    /// Neither a count nor a percentage was given.
    MissingValue,
    /// A percentage outside `0..=1` was given.
    PercentRange,
}

impl AmountError {
    /// A one-line description of the refusal.
    pub fn message(&self) -> (m: &'static str)
        ensures
            m@ == match self {
                AmountError::MissingValue => "no value provided for amount"@,
                AmountError::PercentRange => "percent range should be between 0 and 1"@,
            },
    {
        match self {
            AmountError::MissingValue => "no value provided for amount",
            AmountError::PercentRange => "percent range should be between 0 and 1",
        }
    }
}

} // verus!
