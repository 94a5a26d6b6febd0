//! What a node reports when it fails.
use vstd::prelude::*;
use vstd::string::*;

use crate::base_types::ProxyId;
use crate::text::push_decimal;

verus! {

/// The outcome of a step of a node.
pub type NodeResult<T> = Result<T, NodeError>;

/// Why a step of a node failed.
#[derive(Debug)]
pub enum NodeError {
    /// The node is shutting down.
    ShuttingDown,
    /// No connection to the proxy is known.
    ProxyConnectionNotFound(ProxyId),
    /// Transactions to run again could not be sent.
    FailedToReplayBatches(String),
}

impl NodeError {
    /// The text of the error.
    pub open spec fn text(&self) -> Seq<char> {
        match self {
            NodeError::ShuttingDown => "Node shutting down"@,
            NodeError::ProxyConnectionNotFound(proxy) => "Proxy connection not found for proxy "@
                + crate::text::decimal(*proxy as nat),
            NodeError::FailedToReplayBatches(reason) => "Failed to send replay batches: "@
                + reason@,
        }
    }

    /// The text of the error.
    pub fn message(&self) -> (message: String)
        ensures
            message@ =~= self.text(),
    {
        match self {
            NodeError::ShuttingDown => String::from_str("Node shutting down"),
            NodeError::ProxyConnectionNotFound(proxy) => {
                let mut message: String = String::from_str("Proxy connection not found for proxy ");
                push_decimal(&mut message, *proxy as u64);
                message
            },
            NodeError::FailedToReplayBatches(reason) => String::from_str(
                "Failed to send replay batches: ",
            ).concat(reason.as_str()),
        }
    }
}

} // verus!
