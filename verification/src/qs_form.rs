//! A wrapper for form values parsed with bracket-notation support, so that
//! array and nested fields survive form submission.

use vstd::prelude::*;

verus! {

/// Form extractor whose payload was parsed with bracket-notation support.
#[derive(Debug)]
pub struct QsForm<T>(pub T);

impl<T> QsForm<T> {
    /// The wrapped form value.
    pub fn into_inner(self) -> (r: T)
        ensures
            r == self.0,
    {
        self.0
    }
}

} // verus!
