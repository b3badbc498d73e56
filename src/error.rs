use vstd::prelude::*;

verus! {

/// The source ran out of items before the requested number of them was cached.
#[derive(Debug, Clone, Copy, PartialEq, Eq, Structural)]
pub struct EnqueueWhileIteratorIsEmptyError;

impl EnqueueWhileIteratorIsEmptyError {
    /// A sentence that describes the error.
    pub fn message(&self) -> (r: &'static str)
        ensures
            r@ == "`cache` or `cache_more` called but the iterator was empty!"@,
    {
        "`cache` or `cache_more` called but the iterator was empty!"
    }
}

} // verus!
