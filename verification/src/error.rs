//! Structured errors of the node manager.

use vstd::prelude::*;

verus! {

/// Errors surfaced by node selection and request dispatch.
///
/// Per-candidate transport and decode failures are swallowed while other
/// candidates remain; only the last observed one is surfaced, and only when
/// the candidate list is exhausted without a success. Pool-emptiness and
/// quorum errors are structural and surface immediately.
#[derive(Debug)]
pub enum Error {
    /// The filtered candidate pool is empty.
    NoHealthyNodes,
    /// Remote proof-of-work was requested and no capable node is available.
    NoPowCapableNode,
    /// Fewer candidates than `min_quorum_size` before any dispatch.
    QuorumPoolSizeError { available: usize, required: usize },
    /// Dispatch completed but the winning answer lacked enough votes.
    QuorumThresholdError { achieved: usize, required: usize },
    /// The transport adapter failed (refused connection, timeout, bad status).
    TransportError { message: String },
    /// A response arrived but could not be decoded.
    DecodeError { message: String },
    /// Credentials could not be injected into a request URL. The library's
    /// structured URLs accept any credentials, so selection never produces
    /// this; it is kept for callers whose own URL handling can refuse them.
    UrlCredentialError,
}

impl Error {
    /// The short name that [`Error::kind_name`] gives each kind.
    pub open spec fn spec_kind_name(&self) -> Seq<char> {
        match *self {
            Error::NoHealthyNodes => "no healthy nodes"@,
            Error::NoPowCapableNode => "no pow capable node"@,
            Error::QuorumPoolSizeError { .. } => "quorum pool too small"@,
            Error::QuorumThresholdError { .. } => "quorum threshold not reached"@,
            Error::TransportError { .. } => "transport error"@,
            Error::DecodeError { .. } => "decode error"@,
            Error::UrlCredentialError => "url credential error"@,
        }
    }

    /// A short stable name for the error kind, for logs and messages.
    pub fn kind_name(&self) -> (r: &'static str)
        ensures
            r@ == self.spec_kind_name(),
    {
        match self {
            Error::NoHealthyNodes => "no healthy nodes",
            Error::NoPowCapableNode => "no pow capable node",
            Error::QuorumPoolSizeError { .. } => "quorum pool too small",
            Error::QuorumThresholdError { .. } => "quorum threshold not reached",
            Error::TransportError { .. } => "transport error",
            Error::DecodeError { .. } => "decode error",
            Error::UrlCredentialError => "url credential error",
        }
    }
}

} // verus!
