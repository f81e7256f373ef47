use vstd::prelude::*;

verus! {

/// A run of disk blocks: the first block and the length in bytes.
#[derive(Copy, Clone, Debug, PartialEq, Eq, Structural)]
pub struct Extent {
    pub block: u64,
    pub length: u64,
}

impl Extent {
    /// True when the extent addresses nothing: block zero or no bytes.
    pub open spec fn spec_empty(&self) -> bool {
        self.block == 0 || self.length == 0
    }

    pub fn empty(&self) -> (r: bool)
        ensures
            r == self.spec_empty(),
    {
        self.block == 0 || self.length == 0
    }
}

} // verus!
