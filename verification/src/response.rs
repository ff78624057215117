//! The `(u, a{sv})` reply of most backend methods.
use vstd::prelude::*;

verus! {

pub const SUCCESS: u32 = 0;

pub const CANCELLED: u32 = 1;

pub const OTHER: u32 = 2;

/// The outcome of a portal request, with its results on success.
pub enum PortalResponse<T> {
    Success(T),
    Cancelled,
    Other,
}

impl<T> PortalResponse<T> {
    /// The response code sent for the outcome.
    pub open spec fn code_spec(&self) -> u32 {
        match self {
            PortalResponse::Success(_) => SUCCESS,
            PortalResponse::Cancelled => CANCELLED,
            PortalResponse::Other => OTHER,
        }
    }

    /// The response code sent for the outcome: 0 success, 1 cancelled,
    /// 2 other.
    pub fn code(&self) -> (out: u32)
        ensures
            out == self.code_spec(),
    {
        match self {
            PortalResponse::Success(_) => SUCCESS,
            PortalResponse::Cancelled => CANCELLED,
            PortalResponse::Other => OTHER,
        }
    }
}

/// The empty results dictionary.
#[derive(Clone, Copy, Debug, Default, PartialEq, Eq)]
pub struct EmptyDict {}

} // verus!
