//! The role a node plays and the Raft state it keeps.

use vstd::prelude::*;

use crate::log::{Log, LogIndex, Term};
use crate::nodes::{NodeId, NodeMap, NodeSet};

verus! {

/// The role of a node in the cluster.
#[derive(Debug)]
pub enum Role {
    Follower,
    Candidate { votes_received: NodeMap<bool> },
    Leader { next_index: NodeMap<LogIndex>, match_index: NodeMap<LogIndex> },
}

impl Role {
    /// The maps the role holds have no key twice.
    pub open spec fn wf(&self) -> bool {
        match self {
            Role::Follower => true,
            Role::Candidate { votes_received } => votes_received.wf(),
            Role::Leader { next_index, match_index } => next_index.wf() && match_index.wf(),
        }
    }

    /// A fresh candidate that has heard from none of `other_nodes` yet.
    pub fn candidate(other_nodes: &NodeSet) -> (r: Role)
        ensures
            r.wf(),
            r matches Role::Candidate { votes_received }
                && votes_received@ == Map::new(|k: Seq<char>| other_nodes@.contains(k), |k: Seq<char>| false),
    {
        Role::Candidate { votes_received: NodeMap::from_set(other_nodes, false) }
    }
}

/// The Raft state of a node.
#[derive(Debug)]
pub struct State {
    // persistent state on all servers
    pub current_term: Term,
    pub voted_for: Option<NodeId>,
    pub log: Log,
    // volatile state on all servers
    pub commit_index: u128,
    pub last_applied: LogIndex,
    // volatile state on leaders (reinitialized after election)
    pub next_index: NodeMap<LogIndex>,
    pub match_index: NodeMap<LogIndex>,
}

impl State {
    /// The log starts with its null entry and the maps have no key twice.
    pub open spec fn wf(&self) -> bool {
        &&& self.log.entries@.len() >= 1
        &&& self.next_index.wf()
        &&& self.match_index.wf()
    }
}

} // verus!
