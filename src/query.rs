//! Results of queries over the operations of a document.
use vstd::prelude::*;

verus! {

/// The number of visible elements of a sequence.
#[derive(Debug, Clone, Copy, PartialEq, Eq, Structural)]
pub struct Len {
    pub len: usize,
}

impl Len {
    pub fn new() -> (r: Len)
        ensures
            r.len == 0,
    {
        Len { len: 0 }
    }
}

} // verus!
