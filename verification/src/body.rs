//! A wrapper marking a component parameter as extracted from the request
//! body rather than from the URL.

use vstd::prelude::*;

verus! {

/// Wrapper for body extractors in component signatures.
#[derive(Debug)]
pub struct Body<T>(pub T);

impl<T> Body<T> {
    /// The wrapped value.
    pub fn into_inner(self) -> (r: T)
        ensures
            r == self.0,
    {
        self.0
    }
}

} // verus!
