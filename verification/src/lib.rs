//! A small replicated key-value store built on the Raft consensus algorithm.
//!
//! The crate holds the decision logic of a Raft node: the replicated log and the
//! key-value view of it, the RPC messages, the node roles, and the handlers that
//! turn an incoming message or timer event into the node's next state and the
//! replies it owes. Networking, timers and persistence are driven by the caller.

pub mod inflight;
pub mod laws;
pub mod log;
pub mod messages;
pub mod models;
pub mod node;
pub mod nodes;
pub mod replication;

pub use crate::log::{KvChange, Log, LogEntry, LogEntryContent, LogIndex, Term};
pub use crate::messages::{
    AdminGetState, AppendEntries, AppendEntriesResponse, GetKey, GetKeyResponse, RequestVote,
    RequestVoteResponse, SetKey, SetKeyResponse,
};
pub use crate::models::{Role, State};
pub use crate::nodes::{NodeId, NodeMap, NodeSet};
