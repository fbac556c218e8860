//! A wrapper carrying a component's state as resolved from the request's
//! query parameters.

use vstd::prelude::*;

verus! {

/// Extractor holding a component's resolved state.
#[derive(Debug)]
pub struct StateExtractor<T>(pub T);

impl<T> StateExtractor<T> {
    /// The wrapped state.
    pub fn into_inner(self) -> (r: T)
        ensures
            r == self.0,
    {
        self.0
    }
}

} // verus!
