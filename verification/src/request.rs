//! Request and session objects exported for the portal frontend.
use vstd::prelude::*;

verus! {

/// An exported `org.freedesktop.impl.portal.Session`.
#[derive(Clone, Copy, Debug, PartialEq, Eq)]
pub struct Session;

impl Session {
    /// The interface version.
    pub fn version(&self) -> (out: u32)
        ensures
            out == 1,
    {
        1
    }
}

} // verus!
