//! Stable terminal tab identities.

use vstd::prelude::*;

verus! {

/// A terminal tab's stable handle, written `@N` on the command line.
#[derive(Clone, Copy, Debug, PartialEq, Eq, Structural, Hash)]
pub struct TabId(pub u64);

impl TabId {
    pub fn new(value: u64) -> (id: TabId)
        ensures
            id.0 == value,
    {
        TabId(value)
    }

    pub fn get(&self) -> (value: u64)
        ensures
            value == self.0,
    {
        self.0
    }
}

} // verus!
