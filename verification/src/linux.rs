use vstd::prelude::*;

use crate::virtkeys::VirtualSeq;
use crate::TerminalTrait;

verus! {

/// A terminal that takes virtual-terminal sequences as it is.
pub struct Terminal {}

impl TerminalTrait for Terminal {
    type Error = std::io::Error;
}

impl VirtualSeq for Terminal {
    /// Nothing to switch on.
    fn enable(&self) -> (r: Result<(), std::io::Error>)
        ensures
            r is Ok,
    {
        Ok(())
    }
}

} // verus!
