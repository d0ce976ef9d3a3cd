use vstd::prelude::*;
use vstd::string::StringExecFns;

verus! {

/// Why a Markov transition matrix could not be built.
#[derive(Clone, Copy, PartialEq, Eq, Debug, Structural)]
pub enum BuildError {
    /// An entry is negative.
    NegativeValue,
    /// A row sums to zero.
    EmptyRow,
    /// The matrix has no entry.
    EmptyMatrix,
}

impl BuildError {
    /// The text shown for this error.
    pub open spec fn spec_message(self) -> Seq<char> {
        match self {
            BuildError::NegativeValue => "negative value encountered"@,
            BuildError::EmptyRow => "a row has zero total weight"@,
            BuildError::EmptyMatrix => "matrix has zero size"@,
        }
    }

    /// The text shown for this error.
    pub fn message(&self) -> (r: String)
        ensures
            r@ == self.spec_message(),
    {
        match self {
            BuildError::NegativeValue => String::from_str("negative value encountered"),
            BuildError::EmptyRow => String::from_str("a row has zero total weight"),
            BuildError::EmptyMatrix => String::from_str("matrix has zero size"),
        }
    }
}

/// The outcome of building a transition matrix, given what a scan of it found:
/// an empty matrix is reported first, then a negative entry, then a row
/// without positive total.
pub fn build_outcome(is_empty: bool, has_negative: bool, has_empty_row: bool) -> (r: Result<(), BuildError>)
    ensures
        r == if is_empty {
            Err(BuildError::EmptyMatrix)
        } else if has_negative {
            Err(BuildError::NegativeValue)
        } else if has_empty_row {
            Err(BuildError::EmptyRow)
        } else {
            Ok(())
        },
{
    if is_empty {
        Err(BuildError::EmptyMatrix)
    } else if has_negative {
        Err(BuildError::NegativeValue)
    } else if has_empty_row {
        Err(BuildError::EmptyRow)
    } else {
        Ok(())
    }
}

} // verus!
