//! Node-selection and quorum-arbitration layer of a ledger client.
//!
//! Given a request, the library chooses which nodes to contact and in what
//! order, and decides when a response is trustworthy enough to return,
//! applying a configurable quorum vote when asked to. The network transport
//! itself is an external collaborator: the dispatcher is a verified state
//! machine that the surrounding program drives with transport events.

pub mod block_id;
pub mod dispatch;
pub mod error;
pub mod node;
pub mod node_manager;
pub mod wallet;
