//! The results of computations that report diagnostics.
use vstd::prelude::*;

verus! {

/// Evidence that a diagnostic was reported for the failure at hand.
#[derive(Clone, Copy, PartialEq, Eq, Structural, Debug, Hash)]
pub struct DiagnosticAdded;

/// A value, or the evidence that its absence was reported.
pub type Maybe<T> = Result<T, DiagnosticAdded>;

/// The evidence for a failure that is reported elsewhere.
pub fn skip_diagnostic() -> (r: DiagnosticAdded)
    ensures
        r == DiagnosticAdded,
{
    DiagnosticAdded
}

/// The value of the option, or a failure that is reported elsewhere.
pub fn to_maybe<T>(o: Option<T>) -> (r: Maybe<T>)
    ensures
        r == (match o {
            Some(v) => Ok::<T, DiagnosticAdded>(v),
            None => Err::<T, DiagnosticAdded>(DiagnosticAdded),
        }),
{
    match o {
        Some(v) => Ok(v),
        None => Err(skip_diagnostic()),
    }
}

} // verus!
