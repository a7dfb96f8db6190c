use vstd::prelude::*;

verus! {

/// Failures that the library reports to its callers.
#[derive(Clone, Debug, PartialEq, Eq)]
pub enum HelperError {
    /// An item identifier that does not have the shape of an item image path.
    MalformedIdentifier(String),
    /// The stash could not be fetched (network or authorisation failure).
    TransportFailure(String),
    /// The coordinator can no longer be reached.
    ChannelClosed,
}

} // verus!
