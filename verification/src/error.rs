//! The errors that the driver and its transports report.

use vstd::prelude::*;

verus! {

/// What can go wrong in an exchange with the coprocessor.
#[derive(Debug, PartialEq, Eq)]
pub enum Error<CommE> {
    /// The link itself reported an error.
    Comm(CommE),
    /// The reply was marked as an error or as corrupt, or was malformed.
    ErrorResponse,
    /// No byte arrived within the tolerance for waiting.
    Stalled,
    /// Too many communication errors. Reserved.
    GenericOverload,
    /// Every attempt of the exchange ended without a usable reply.
    Unresponsive,
}

} // verus!
