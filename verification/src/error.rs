use vstd::prelude::*;

verus! {

/// The failures that the registry and the resolver report to their callers.
#[derive(Clone, Copy, Debug, PartialEq, Eq, Structural)]
pub enum LoaderError {
    /// The identifier is malformed and has no canonical form.
    InvalidSpecifier,
    /// The specifier or handle is absent, or the module is not evaluated yet.
    NotFound,
    /// The resolution policy cannot compute a target for the request.
    ResolutionFailure,
}

impl LoaderError {
    /// A short stable name of the failure.
    pub fn name(&self) -> (r: &'static str)
        ensures
            r@ == (match *self {
                LoaderError::InvalidSpecifier => "InvalidSpecifier"@,
                LoaderError::NotFound => "NotFound"@,
                LoaderError::ResolutionFailure => "ResolutionFailure"@,
            }),
    {
        match self {
            LoaderError::InvalidSpecifier => "InvalidSpecifier",
            LoaderError::NotFound => "NotFound",
            LoaderError::ResolutionFailure => "ResolutionFailure",
        }
    }
}

} // verus!
