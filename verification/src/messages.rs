//! The messages that nodes and clients exchange.

use vstd::prelude::*;

use crate::log::{LogEntry, LogIndex, Term};
use crate::nodes::NodeId;

verus! {

/// A candidate's request for a vote.
#[derive(Debug, PartialEq, Eq)]
pub struct RequestVote {
    pub term: Term,
    pub candidate_id: NodeId,
    pub last_log_index: u64,
    pub last_log_term: Term,
}

/// The answer to a `RequestVote`.
#[derive(Debug, PartialEq, Eq)]
pub struct RequestVoteResponse {
    pub from: NodeId,
    pub term: Term,
    pub vote_granted: bool,
}

impl RequestVoteResponse {
    /// A vote given by `from` in `term`.
    pub fn granted(from: NodeId, term: Term) -> (r: Self)
        ensures
            r == (RequestVoteResponse { from, term, vote_granted: true }),
    {
        Self { from, term, vote_granted: true }
    }

    /// A vote refused by `from` in `term`.
    pub fn denied(from: NodeId, term: Term) -> (r: Self)
        ensures
            r == (RequestVoteResponse { from, term, vote_granted: false }),
    {
        Self { from, term, vote_granted: false }
    }
}

/// A leader's request to replicate entries, or a heartbeat when `entries` is empty.
#[derive(Debug, PartialEq, Eq)]
pub struct AppendEntries {
    pub term: Term,
    pub leader_id: NodeId,
    pub prev_log_index: LogIndex,
    pub prev_log_term: Term,
    pub entries: Vec<LogEntry>,
    pub leader_commit: u128,
}

/// The answer to an `AppendEntries`.
#[derive(Debug, PartialEq, Eq)]
pub struct AppendEntriesResponse {
    pub from: NodeId,
    pub term: Term,
    pub success: bool,
    /// The `prev_log_index` of the request, so that replies that arrive out of
    /// order can be matched to their request.
    pub prev_log_index: LogIndex,
    pub was_heartbeat: bool,
}

impl AppendEntriesResponse {
    /// `from` accepted the request.
    pub fn success(from: NodeId, term: Term, prev_log_index: LogIndex, was_heartbeat: bool) -> (r: Self)
        ensures
            r == (AppendEntriesResponse { from, term, success: true, prev_log_index, was_heartbeat }),
    {
        Self { from, term, success: true, prev_log_index, was_heartbeat }
    }

    /// `from` refused the request.
    pub fn failure(from: NodeId, term: Term, prev_log_index: LogIndex, was_heartbeat: bool) -> (r: Self)
        ensures
            r == (AppendEntriesResponse { from, term, success: false, prev_log_index, was_heartbeat }),
    {
        Self { from, term, success: false, prev_log_index, was_heartbeat }
    }
}

/// A client's request to set `key` to `value`.
#[derive(Debug, PartialEq, Eq)]
pub struct SetKey {
    pub key: String,
    pub value: String,
}

/// The answer to a `SetKey`.
#[derive(Debug, PartialEq, Eq)]
pub struct SetKeyResponse {
    success: bool,
}

impl SetKeyResponse {
    /// Whether the change was committed.
    pub closed spec fn spec_success(&self) -> bool {
        self.success
    }

    /// The change was committed.
    pub fn success() -> (r: Self)
        ensures
            r.spec_success(),
    {
        Self { success: true }
    }

    /// The change was not committed.
    pub fn failure() -> (r: Self)
        ensures
            !r.spec_success(),
    {
        Self { success: false }
    }

    /// Whether the change was committed.
    pub fn succeeded(&self) -> (b: bool)
        ensures
            b == self.spec_success(),
    {
        self.success
    }
}

/// A client's request for the value of `key`.
#[derive(Debug, PartialEq, Eq)]
pub struct GetKey {
    pub key: String,
}

/// The answer to a `GetKey`.
#[derive(Debug, PartialEq, Eq)]
pub struct GetKeyResponse {
    pub success: bool,
    pub value: Option<String>,
}

impl GetKeyResponse {
    /// The lookup went through; `value` is what the key holds, if anything.
    pub fn success(value: Option<String>) -> (r: Self)
        ensures
            r == (GetKeyResponse { success: true, value }),
    {
        Self { success: true, value }
    }

    /// The lookup did not go through.
    pub fn failure() -> (r: Self)
        ensures
            r == (GetKeyResponse { success: false, value: None }),
    {
        Self { success: false, value: None }
    }
}

/// A request for a snapshot of a node's state.
#[derive(Debug)]
pub struct AdminGetState;

} // verus!
