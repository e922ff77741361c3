use vstd::prelude::*;

verus! {

/// The reason a scan reported a terminal failure.
///
/// Item-parser failures are normally absorbed by the combinators (skip and
/// retry, or stop and return what was collected); only these conditions
/// escape to the caller.
#[derive(Clone, Copy, Debug, PartialEq, Eq, Structural)]
pub enum ErrorCode {
    /// The marker pattern no longer occurs in the remaining input.
    NotFound,
    /// A separated run that must hold at least one item matched none.
    SeparatedListEmpty,
    /// An item parser did not match at the reported position.
    ItemFailed,
}

/// A terminal parse failure: the position in the input at which scanning
/// stopped, and why.
#[derive(Clone, Copy, Debug, PartialEq, Eq, Structural)]
pub struct Error {
    /// position of the failure in the input data
    pub pos: usize,
    /// failure kind
    pub code: ErrorCode,
}

impl Error {
    /// A short human-readable description of the failure kind, for callers
    /// that do not want to pattern-match on the structured failure.
    pub fn message(&self) -> (r: &'static str)
        ensures
            self.code == ErrorCode::NotFound ==> r@ == "marker not found in the remaining input"@,
            self.code == ErrorCode::SeparatedListEmpty ==> r@ == "separated run matched no item"@,
            self.code == ErrorCode::ItemFailed ==> r@ == "item parser failed"@,
    {
        match self.code {
            ErrorCode::NotFound => "marker not found in the remaining input",
            ErrorCode::SeparatedListEmpty => "separated run matched no item",
            ErrorCode::ItemFailed => "item parser failed",
        }
    }
}

} // verus!
