use vstd::prelude::*;
use vstd::string::StringExecFns;

verus! {

/// Why a probability distribution could not be built from a vector.
#[derive(Clone, Copy, PartialEq, Eq, Debug, Structural)]
pub enum BuildError {
    /// The vector has no entry.
    Empty,
    /// The entries sum to zero.
    ZeroSum,
    /// An entry is negative.
    NegativeValue,
}

impl BuildError {
    /// The text shown for this error.
    pub open spec fn spec_message(self) -> Seq<char> {
        match self {
            BuildError::Empty => "vector is empty"@,
            BuildError::ZeroSum => "vector has sum zero"@,
            BuildError::NegativeValue => "negative value encountered"@,
        }
    }

    /// The text shown for this error.
    pub fn message(&self) -> (r: String)
        ensures
            r@ == self.spec_message(),
    {
        match self {
            BuildError::Empty => String::from_str("vector is empty"),
            BuildError::ZeroSum => String::from_str("vector has sum zero"),
            BuildError::NegativeValue => String::from_str("negative value encountered"),
        }
    }
}

/// The outcome of building a distribution from a vector, given what a scan of
/// its entries found: emptiness is reported first, then a negative entry, then
/// a zero sum.
pub fn build_outcome(is_empty: bool, has_negative: bool, sum_is_zero: bool) -> (r: Result<(), BuildError>)
    ensures
        r == if is_empty {
            Err(BuildError::Empty)
        } else if has_negative {
            Err(BuildError::NegativeValue)
        } else if sum_is_zero {
            Err(BuildError::ZeroSum)
        } else {
            Ok(())
        },
{
    if is_empty {
        Err(BuildError::Empty)
    } else if has_negative {
        Err(BuildError::NegativeValue)
    } else if sum_is_zero {
        Err(BuildError::ZeroSum)
    } else {
        Ok(())
    }
}

} // verus!
