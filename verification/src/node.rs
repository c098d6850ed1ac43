//! A Raft node: its state and the handlers that decide, for each message or
//! timer event, the node's next state and what it owes in reply.
//!
//! The caller runs the node: it delivers messages and timer events, sends the
//! requests a handler hands back to every peer, resets the election timer when
//! a vote is granted, an `AppendEntries` request is accepted, or a handler asks
//! for it, keeps the term, the vote and the log in stable storage, and answers
//! the clients whose changes a handler reports as committed.

use vstd::prelude::*;

use rand::Rng;

use crate::log::{KvChange, Log, LogEntry, LogEntryContent, LogIndex, Term};
use crate::messages::{
    AppendEntries, AppendEntriesResponse, GetKey, GetKeyResponse, RequestVote, RequestVoteResponse,
    SetKey,
};
use crate::inflight::{accepted_after, pending_after, reached_quorum, InflightTable, Pending};
use crate::models::{Role, State};
use crate::nodes::{true_keys, NodeId, NodeMap, NodeSet};
use crate::replication::{last_term, merge_entries, merge_into};

verus! {

/// What handling an `AppendEntries` request produced.
#[derive(Debug)]
pub struct AppendEntriesOutcome {
    /// The reply owed to the leader.
    pub response: AppendEntriesResponse,
    /// Whether the log is to be written to its file (the commit index moved).
    pub save_log: bool,
}

/// What an election timeout produced.
#[derive(Debug)]
pub struct ElectionTimeoutOutcome {
    /// The vote request to send to every peer, if the node stands for election.
    pub request: Option<RequestVote>,
    /// Whether the election timer is to be armed again.
    pub reset_election_timer: bool,
}

/// A Raft node.
#[derive(Debug)]
pub struct Node {
    pub id: NodeId,
    pub peers: NodeSet,
    pub role: Role,
    pub state: State,
    pub election_timeout_interval_ms: u64,
    pub heartbeat_interval_ms: u64,
    pub inflight_append_entries: InflightTable,
}

/// The number of votes, or acceptances, that make a majority among `peers` peers.
pub open spec fn quorum_of(peers: nat) -> nat {
    peers / 2 + 1
}

/// The index of the last entry of a log that starts with its null entry.
pub open spec fn last_index_of(log: Seq<LogEntry>) -> int {
    log.len() - 1
}

/// Whether a candidate whose log ends with `last_log_term` at `last_log_index`
/// is at least as up to date as `log`.
pub open spec fn candidate_log_ok(log: Seq<LogEntry>, last_log_term: Term, last_log_index: u64) -> bool {
    ||| last_log_term > last_term(log)
    ||| (last_log_term == last_term(log) && last_log_index >= last_index_of(log))
}

/// What a node that receives `msg` in state `pre` answers (`resp`) and becomes (`post`).
///
/// A request from a later term makes the node a follower of that term with no
/// vote cast. The node then grants its vote if the request is of its current
/// term, the candidate's log is at least as up to date as its own, and it has
/// not voted in this term or voted for this same candidate; a first vote is
/// recorded.
pub open spec fn request_vote_step(pre: Node, post: Node, msg: RequestVote, resp: RequestVoteResponse) -> bool {
    let stepped_down = msg.term > pre.state.current_term;
    let term = if stepped_down { msg.term } else { pre.state.current_term };
    let voted = if stepped_down { None } else { pre.state.voted_for };
    let grant = msg.term == term && candidate_log_ok(pre.state.log.entries@, msg.last_log_term, msg.last_log_index)
        && (voted is None || voted->0@ == msg.candidate_id@);
    &&& post == (Node {
        role: if stepped_down { Role::Follower } else { pre.role },
        state: State {
            current_term: term,
            voted_for: if grant && voted is None { Some(msg.candidate_id) } else { voted },
            ..pre.state
        },
        ..pre
    })
    &&& resp == (RequestVoteResponse { from: pre.id, term, vote_granted: grant })
}

/// The vote request a node in state `pre` sends to each peer when it stands for election.
pub open spec fn vote_request_of(pre: Node) -> RequestVote {
    RequestVote {
        term: (pre.state.current_term + 1) as Term,
        candidate_id: pre.id,
        last_log_index: last_index_of(pre.state.log.entries@) as u64,
        last_log_term: last_term(pre.state.log.entries@),
    }
}

/// `post` is `pre` standing for election: a candidate of the next term that
/// votes for itself and has heard from none of its peers.
pub open spec fn election_started(pre: Node, post: Node) -> bool {
    &&& post.role matches Role::Candidate { votes_received }
        && votes_received@ == Map::new(|k: Seq<char>| pre.peers@.contains(k), |k: Seq<char>| false)
    &&& post.role.wf()
    &&& post == (Node {
        role: post.role,
        state: State {
            current_term: (pre.state.current_term + 1) as Term,
            voted_for: Some(pre.id),
            ..pre.state
        },
        ..pre
    })
}

/// `hb` is the heartbeat a leader in state `pre` sends to each peer: no
/// entries, and the leader's term, last log position and commit index.
pub open spec fn is_heartbeat_of(pre: Node, hb: AppendEntries) -> bool {
    &&& hb.term == pre.state.current_term
    &&& hb.leader_id == pre.id
    &&& hb.prev_log_index == last_index_of(pre.state.log.entries@)
    &&& hb.prev_log_term == last_term(pre.state.log.entries@)
    &&& hb.entries@.len() == 0
    &&& hb.leader_commit == pre.state.commit_index
}

/// The smaller of `a` and `b`.
pub open spec fn min_u128(a: u128, b: u128) -> u128 {
    if a < b { a } else { b }
}

/// The larger of `a` and `b`.
pub open spec fn max_u128(a: u128, b: u128) -> u128 {
    if a < b { b } else { a }
}

/// The node in state `pre` after it heard from a leader of term `term`: a
/// follower of that term, with no vote cast if the term is new to it.
pub open spec fn following(pre: Node, term: Term) -> Node {
    Node {
        role: Role::Follower,
        state: State {
            current_term: term,
            voted_for: if term > pre.state.current_term { None } else { pre.state.voted_for },
            ..pre.state
        },
        ..pre
    }
}

/// What a node in state `pre` answers (`out`) and becomes (`post`) when it
/// receives `msg`.
///
/// A request of an older term is refused and changes nothing. Any other makes
/// the node a follower of the request's term. The request is then refused if
/// the log has no entry at `prev_log_index` with term `prev_log_term`.
/// Otherwise the new entries are merged into the log after that entry; if the
/// leader's commit index is ahead, the commit index moves up to it, capped at
/// the index of the last new entry and never moving down, and the log is to be
/// saved.
pub open spec fn append_entries_step(pre: Node, post: Node, msg: AppendEntries, out: AppendEntriesOutcome) -> bool {
    let log = pre.state.log.entries@;
    let heartbeat = msg.entries@.len() == 0;
    let prev = (msg.prev_log_index as usize) as int;
    if msg.term < pre.state.current_term {
        &&& post == pre
        &&& out.response == (AppendEntriesResponse {
            from: pre.id,
            term: pre.state.current_term,
            success: false,
            prev_log_index: msg.prev_log_index,
            was_heartbeat: heartbeat,
        })
        &&& !out.save_log
    } else {
        let base = following(pre, msg.term);
        if !(prev < log.len() && log[prev].term == msg.prev_log_term) {
            &&& post == base
            &&& out.response == (AppendEntriesResponse {
                from: pre.id,
                term: msg.term,
                success: false,
                prev_log_index: msg.prev_log_index,
                was_heartbeat: heartbeat,
            })
            &&& !out.save_log
        } else {
            let merged = merge_entries(log, prev + 1, msg.entries@);
            let advance = msg.leader_commit > pre.state.commit_index;
            &&& post.state.log.entries@ == merged
            &&& post.state.log.path == pre.state.log.path
            &&& post.state.commit_index == (if advance {
                max_u128(
                    pre.state.commit_index,
                    min_u128(msg.leader_commit, (prev + msg.entries@.len()) as u128),
                )
            } else {
                pre.state.commit_index
            })
            &&& post == (Node {
                state: State { log: post.state.log, commit_index: post.state.commit_index, ..base.state },
                ..base
            })
            &&& out.response == (AppendEntriesResponse {
                from: pre.id,
                term: msg.term,
                success: true,
                prev_log_index: msg.prev_log_index,
                was_heartbeat: heartbeat,
            })
            &&& out.save_log == advance
        }
    }
}

/// The map that sends every peer of `pre` to `v`.
pub open spec fn all_peers_to(pre: Node, v: LogIndex) -> Map<Seq<char>, LogIndex> {
    Map::new(|k: Seq<char>| pre.peers@.contains(k), |k: Seq<char>| v)
}

/// What a node in state `pre` becomes (`post`) when it receives the answer
/// `msg` to one of its vote requests, and whether its election timer is to be
/// reset.
///
/// A node of any role that hears of a later term becomes a follower of that
/// term with no vote cast, and resets its election timer. Otherwise a
/// candidate records a vote granted in its current term, and becomes leader
/// once the peers that granted it their vote reach a quorum; as leader it
/// starts every peer's next index at the index of its last log entry and its
/// match index at 0. A follower or a leader changes nothing, and resets its
/// election timer.
pub open spec fn vote_response_step(pre: Node, post: Node, msg: RequestVoteResponse, reset: bool) -> bool {
    if msg.term > pre.state.current_term {
        &&& reset
        &&& post == (Node {
            role: Role::Follower,
            state: State { current_term: msg.term, voted_for: None, ..pre.state },
            ..pre
        })
    } else {
        match pre.role {
            Role::Candidate { votes_received } => {
                &&& !reset
                &&& if msg.term == pre.state.current_term && msg.vote_granted {
                    let votes = votes_received@.insert(msg.from@, true);
                    if true_keys(votes).len() >= quorum_of(pre.peers.ids().len()) {
                        let last = last_index_of(pre.state.log.entries@) as LogIndex;
                        &&& post.role matches Role::Leader { next_index, match_index }
                            && next_index@ == all_peers_to(pre, last) && match_index@ == all_peers_to(pre, 0)
                        &&& post.state.next_index@ == pre.state.next_index@.union_prefer_right(all_peers_to(pre, last))
                        &&& post.state.match_index@ == pre.state.match_index@.union_prefer_right(all_peers_to(pre, 0))
                        &&& post == (Node {
                            role: post.role,
                            state: State {
                                next_index: post.state.next_index,
                                match_index: post.state.match_index,
                                ..pre.state
                            },
                            ..pre
                        })
                    } else {
                        &&& post.role matches Role::Candidate { votes_received: now } && now@ == votes
                        &&& post == (Node { role: post.role, ..pre })
                    }
                } else {
                    post == pre
                }
            },
            _ => {
                &&& reset
                &&& post == pre
            },
        }
    }
}

/// The entry a node in state `pre` adds to its log for the client request `msg`.
pub open spec fn put_entry_of(pre: Node, msg: SetKey) -> LogEntry {
    LogEntry { term: pre.state.current_term, content: LogEntryContent::Kv(KvChange::Put(msg.key, msg.value)) }
}

/// What a node in state `pre` becomes (`post`) when a client asks it to set a
/// key, and the request `req` it sends to every peer: the change is added to
/// the log under the current term, sent right after what was the last entry,
/// and tracked under the key `(term, index of that entry)` as awaiting
/// acceptance. Nothing else changes.
pub open spec fn set_key_step(pre: Node, post: Node, msg: SetKey, req: AppendEntries) -> bool {
    let entry = put_entry_of(pre, msg);
    let prev = last_index_of(pre.state.log.entries@) as LogIndex;
    &&& req == (AppendEntries {
        term: pre.state.current_term,
        leader_id: pre.id,
        prev_log_index: prev,
        prev_log_term: last_term(pre.state.log.entries@),
        entries: req.entries,
        leader_commit: pre.state.commit_index,
    })
    &&& req.entries@ == seq![entry]
    &&& post.state.log.entries@ == pre.state.log.entries@.push(entry)
    &&& post.state.log.path == pre.state.log.path
    &&& post.inflight_append_entries.items() == pending_after(
        pre.inflight_append_entries.items(),
        (pre.state.current_term, prev),
    )
    &&& post == (Node {
        state: State { log: post.state.log, ..pre.state },
        inflight_append_entries: post.inflight_append_entries,
        ..pre
    })
}

/// The commit index after the changes keyed `keys` commit one after the
/// other, starting from `commit`: each moves it up to the index of its entry
/// (`prev_log_index + 1`), and none moves it down.
pub open spec fn commit_after(commit: u128, keys: Seq<(Term, LogIndex)>) -> u128
    decreases keys.len(),
{
    if keys.len() == 0 {
        commit
    } else {
        let c = commit_after(commit, keys.drop_last());
        let index = keys.last().1 + 1;
        if index > c {
            index as u128
        } else {
            c
        }
    }
}

/// The entries kept by a filter are entries of the sequence filtered.
proof fn lemma_filter_keeps_bound(
    items: Seq<Pending>,
    pred: spec_fn(Pending) -> bool,
)
    requires
        forall|j: int| 0 <= j < items.len() ==> #[trigger] items[j].0.1 < u128::MAX,
    ensures
        forall|i: int| 0 <= i < items.filter(pred).len() ==> #[trigger] items.filter(pred)[i].0.1 < u128::MAX,
{
    let f = items.filter(pred);
    assert forall|i: int| 0 <= i < f.len() implies #[trigger] f[i].0.1 < u128::MAX by {
        assert(f.contains(f[i]));
        items.lemma_filter_contains_rev(pred, f[i]);
        let j = choose|j: int| 0 <= j < items.len() && items[j] == f[i];
        assert(items[j].0.1 < u128::MAX);
    }
}

/// The answer owed to the leader once the log has been written (`saved`) or
/// writing it failed: an accepted request whose log could not be saved is
/// answered with a refusal; any other answer stands.
pub fn reply_after_save(response: AppendEntriesResponse, saved: bool) -> (r: AppendEntriesResponse)
    ensures
        r == (AppendEntriesResponse { success: response.success && saved, ..response }),
{
    if saved {
        response
    } else {
        AppendEntriesResponse::failure(response.from, response.term, response.prev_log_index, response.was_heartbeat)
    }
}

/// Random whole seconds from `low` to `high`, both included.
///
/// Calls `rand::thread_rng().gen_range(low..=high)`, which rand documents to
/// return a value in the range and to panic only when the range is empty.
#[verifier::external_body]
fn random_secs_between(low: u64, high: u64) -> (secs: u64)
    requires
        low <= high,
    ensures
        low <= secs <= high,
{
    rand::thread_rng().gen_range(low..=high)
}

impl Node {
    /// The node's collections have no key twice, its log starts with the null
    /// entry, and every change awaiting acceptance follows an index below the
    /// largest `u128`.
    pub open spec fn wf(&self) -> bool {
        &&& self.peers.wf()
        &&& self.role.wf()
        &&& self.state.wf()
        &&& self.inflight_append_entries.wf()
        &&& forall|i: int|
            0 <= i < self.inflight_append_entries.items().len()
                ==> #[trigger] self.inflight_append_entries.items()[i].0.1 < u128::MAX
    }

    /// A follower in the stored term `current_term`, with the stored vote
    /// `voted_for` and the given timeouts, whose commit index is the length of
    /// `log`.
    pub fn with_timeouts(
        id: NodeId,
        peers: NodeSet,
        log: Log,
        current_term: Term,
        voted_for: Option<NodeId>,
        election_timeout_interval_ms: u64,
        heartbeat_interval_ms: u64,
    ) -> (node: Node)
        requires
            peers.wf(),
            log.entries@.len() >= 1,
        ensures
            node.wf(),
            node.id == id,
            node.peers == peers,
            node.role is Follower,
            node.state.current_term == current_term,
            node.state.voted_for == voted_for,
            node.state.log == log,
            node.state.commit_index == log.entries@.len() - 1,
            node.state.last_applied == 0,
            node.state.next_index@ == Map::<Seq<char>, LogIndex>::empty(),
            node.state.match_index@ == Map::<Seq<char>, LogIndex>::empty(),
            node.election_timeout_interval_ms == election_timeout_interval_ms,
            node.heartbeat_interval_ms == heartbeat_interval_ms,
            node.inflight_append_entries.items() == Seq::<Pending>::empty(),
    {
        let commit_index = log.len() as u128;
        let node = Node {
            id,
            peers,
            role: Role::Follower,
            state: State {
                current_term,
                voted_for,
                log,
                commit_index,
                last_applied: 0,
                next_index: NodeMap::new(),
                match_index: NodeMap::new(),
            },
            election_timeout_interval_ms,
            heartbeat_interval_ms,
            inflight_append_entries: InflightTable::new(),
        };
                node
    }

    /// A node started on its stored log, term and vote: node "1234" waits 3
    /// seconds before it stands for election, any other node a random whole
    /// number of seconds from 5 to 40.
    pub fn initialize(
        id: NodeId,
        peers: NodeSet,
        log: Log,
        current_term: Term,
        voted_for: Option<NodeId>,
        heartbeat_interval_ms: u64,
    ) -> (node: Node)
        requires
            peers.wf(),
            log.entries@.len() >= 1,
        ensures
            node.wf(),
            node.id == id,
            node.peers == peers,
            node.role is Follower,
            node.state.current_term == current_term,
            node.state.voted_for == voted_for,
            node.state.log == log,
            node.state.commit_index == log.entries@.len() - 1,
            node.state.last_applied == 0,
            node.state.next_index@ == Map::<Seq<char>, LogIndex>::empty(),
            node.state.match_index@ == Map::<Seq<char>, LogIndex>::empty(),
            node.heartbeat_interval_ms == heartbeat_interval_ms,
            node.inflight_append_entries.items() == Seq::<Pending>::empty(),
            id@ == "1234"@ ==> node.election_timeout_interval_ms == 3000,
            id@ != "1234"@ ==> {
                &&& 5000 <= node.election_timeout_interval_ms <= 40000
                &&& node.election_timeout_interval_ms % 1000 == 0
            },
    {
        let fixed = "1234".to_owned();
        let election_timeout_interval_ms = if id == fixed {
            3000
        } else {
            random_secs_between(5, 40) * 1000
        };
        Node::with_timeouts(id, peers, log, current_term, voted_for, election_timeout_interval_ms, heartbeat_interval_ms)
    }

    /// The number of votes, or acceptances, that make a majority among the peers.
    pub fn qourum(&self) -> (q: usize)
        ensures
            q == quorum_of(self.peers.ids().len()),
    {
        self.peers.len() / 2 + 1
    }

    /// The term of the last log entry.
    fn last_log_term(&self) -> (t: Term)
        ensures
            t == last_term(self.state.log.entries@),
    {
        match self.state.log.last() {
            Some(entry) => entry.term,
            None => 0,
        }
    }

    /// Answers a vote request; the election timer is to be reset exactly when
    /// the vote is granted.
    pub fn handle_request_vote(&mut self, msg: RequestVote) -> (resp: RequestVoteResponse)
        requires
            old(self).wf(),
        ensures
            final(self).wf(),
            request_vote_step(*old(self), *final(self), msg, resp),
            final(self).state.current_term >= old(self).state.current_term,
    {
        if msg.term > self.state.current_term {
            self.state.current_term = msg.term;
            self.role = Role::Follower;
            self.state.voted_for = None;
        }
        let last_term = self.last_log_term();
        let log_ok = msg.last_log_term > last_term || (msg.last_log_term == last_term
            && msg.last_log_index >= self.state.log.len() as u64);
        let vote_free = match &self.state.voted_for {
            None => true,
            Some(candidate) => *candidate == msg.candidate_id,
        };
        if msg.term == self.state.current_term && log_ok && vote_free {
            if self.state.voted_for.is_none() {
                self.state.voted_for = Some(msg.candidate_id.clone());
            }
            RequestVoteResponse::granted(self.id.clone(), self.state.current_term)
        } else {
            RequestVoteResponse::denied(self.id.clone(), self.state.current_term)
        }
    }

    /// Stands for election: becomes a candidate of the next term and votes for
    /// itself. Returns the vote request to send to every peer.
    fn start_election(&mut self) -> (req: RequestVote)
        requires
            old(self).wf(),
            old(self).state.current_term < u128::MAX,
        ensures
            final(self).wf(),
            election_started(*old(self), *final(self)),
            req == vote_request_of(*old(self)),
    {
        self.role = Role::candidate(&self.peers);
        self.state.current_term = self.state.current_term + 1;
        self.state.voted_for = Some(self.id.clone());
        RequestVote {
            term: self.state.current_term,
            candidate_id: self.id.clone(),
            last_log_index: self.state.log.len() as u64,
            last_log_term: self.last_log_term(),
        }
    }

    /// The election timer ran out. A follower or a candidate stands for
    /// election: it returns the vote request to send to every peer and arms
    /// its election timer again, so that an election that stalls is retried.
    /// A leader does nothing.
    pub fn handle_election_timeout(&mut self) -> (out: ElectionTimeoutOutcome)
        requires
            old(self).wf(),
            old(self).state.current_term < u128::MAX,
        ensures
            final(self).wf(),
            old(self).role is Leader ==> out.request is None && !out.reset_election_timer
                && *final(self) == *old(self),
            !(old(self).role is Leader) ==> out.request == Some(vote_request_of(*old(self)))
                && out.reset_election_timer && election_started(*old(self), *final(self)),
    {
        match &self.role {
            Role::Leader { .. } => ElectionTimeoutOutcome { request: None, reset_election_timer: false },
            Role::Candidate { .. } => ElectionTimeoutOutcome {
                request: Some(self.start_election()),
                reset_election_timer: true,
            },
            Role::Follower => {
                self.role = Role::candidate(&self.peers);
                ElectionTimeoutOutcome { request: Some(self.start_election()), reset_election_timer: true }
            },
        }
    }

    /// The heartbeat to send to every peer, if this node is the leader.
    pub fn heartbeat_for_followers(&self) -> (hb: Option<AppendEntries>)
        requires
            self.wf(),
        ensures
            self.role is Leader ==> (hb matches Some(h) && is_heartbeat_of(*self, h)),
            !(self.role is Leader) ==> hb is None,
    {
        match &self.role {
            Role::Leader { .. } => Some(AppendEntries {
                term: self.state.current_term,
                leader_id: self.id.clone(),
                prev_log_index: self.state.log.len() as u128,
                prev_log_term: self.last_log_term(),
                entries: Vec::new(),
                leader_commit: self.state.commit_index,
            }),
            _ => None,
        }
    }

    /// Answers a client's lookup from the log.
    pub fn handle_get_key(&self, msg: GetKey) -> (resp: GetKeyResponse)
        ensures
            resp == (GetKeyResponse {
                success: true,
                value: crate::log::latest_value(self.state.log.entries@, msg.key@),
            }),
    {
        let value = self.state.log.kv_get(msg.key);
        GetKeyResponse::success(value)
    }

    /// A client asks to set a key: the change is added to the log under the
    /// current term and tracked as awaiting acceptance. Returns the request to
    /// send to every peer.
    pub fn handle_set_key(&mut self, msg: SetKey) -> (req: AppendEntries)
        requires
            old(self).wf(),
        ensures
            final(self).wf(),
            set_key_step(*old(self), *final(self), msg, req),
    {
        let log_entry = LogEntry {
            term: self.state.current_term,
            content: LogEntryContent::Kv(KvChange::Put(msg.key, msg.value)),
        };
        let mut entries: Vec<LogEntry> = Vec::new();
        entries.push(log_entry.clone());
        let append_entry = AppendEntries {
            term: self.state.current_term,
            leader_id: self.id.clone(),
            prev_log_index: self.state.log.last_index(),
            prev_log_term: self.state.log.last_term(),
            entries,
            leader_commit: self.state.commit_index,
        };
        assert(self.state.log.entries.len() == self.state.log.entries@.len());
        assert(append_entry.prev_log_index < u128::MAX);
        self.state.log.append(log_entry);
        let ghost items = self.inflight_append_entries.items();
        let key = (append_entry.term, append_entry.prev_log_index);
        self.inflight_append_entries.mark_pending(key);
        proof {
            let now = self.inflight_append_entries.items();
            assert forall|i: int| 0 <= i < now.len() implies #[trigger] now[i].0.1 < u128::MAX by {
                if items.map_values(|e: Pending| e.0).contains(key) {
                    assert(items[i].0.1 < u128::MAX);
                    assert(now[i].0 == items[i].0 || now[i].0 == key);
                } else if i < items.len() {
                    assert(now[i] == items[i]);
                } else {
                    assert(now[i].0 == key);
                }
            }
        }
        assert(append_entry.entries@ =~= seq![log_entry]);
        append_entry
    }

    /// The periodic check of the changes awaiting acceptance: those that a
    /// quorum of peers accepted are committed, and the commit index moves up
    /// to the index of each committed entry (its `prev_log_index + 1`), never
    /// down. Returns their keys, in table order, so that their clients can be
    /// told.
    pub fn check_inflight_append_entries(&mut self) -> (committed: Vec<(Term, LogIndex)>)
        requires
            old(self).wf(),
        ensures
            final(self).wf(),
            committed@ == old(self).inflight_append_entries.items().filter(
                |e: Pending| reached_quorum(e, quorum_of(old(self).peers.ids().len())),
            ).map_values(|e: Pending| e.0),
            final(self).inflight_append_entries.items() == old(self).inflight_append_entries.items().filter(
                |e: Pending| !reached_quorum(e, quorum_of(old(self).peers.ids().len())),
            ),
            final(self).state.commit_index == commit_after(old(self).state.commit_index, committed@),
            *final(self) == (Node {
                state: State { commit_index: final(self).state.commit_index, ..old(self).state },
                inflight_append_entries: final(self).inflight_append_entries,
                ..*old(self)
            }),
    {
        let quorum = self.qourum();
        let ghost items = self.inflight_append_entries.items();
        let committed = self.inflight_append_entries.take_committed(quorum);
        proof {
            lemma_filter_keeps_bound(
                items,
                |e: Pending| reached_quorum(e, quorum as nat),
            );
            lemma_filter_keeps_bound(
                items,
                |e: Pending| !reached_quorum(e, quorum as nat),
            );
        }
        let ghost c0 = self.state.commit_index;
        let ghost after = *self;
        let n = committed.len();
        let mut i: usize = 0;
        assert(committed@.take(0) =~= Seq::<(Term, LogIndex)>::empty());
        while i < n
            invariant
                n == committed@.len(),
                i <= n,
                forall|j: int| 0 <= j < n ==> #[trigger] committed@[j].1 < u128::MAX,
                self.state.commit_index == commit_after(c0, committed@.take(i as int)),
                *self == (Node { state: State { commit_index: self.state.commit_index, ..after.state }, ..after }),
            decreases n - i,
        {
            assert(committed@.take(i + 1).drop_last() =~= committed@.take(i as int));
            assert(committed@.take(i + 1).last() == committed@[i as int]);
            let index = committed[i].1 + 1;
            if index > self.state.commit_index {
                self.state.commit_index = index;
            }
            i = i + 1;
        }
        assert(committed@.take(n as int) =~= committed@);
        committed
    }

    /// A peer answered an `AppendEntries` request. Answers to heartbeats and
    /// refusals are ignored; a success is counted as an acceptance of the
    /// change it is keyed to. Returns whether it was counted.
    pub fn handle_append_entries_response(&mut self, msg: AppendEntriesResponse) -> (recorded: bool)
        requires
            old(self).wf(),
        ensures
            final(self).wf(),
            (msg.was_heartbeat || !msg.success) ==> !recorded && *final(self) == *old(self),
            (!msg.was_heartbeat && msg.success) ==> {
                &&& recorded == old(self).inflight_append_entries.keys().contains((msg.term, msg.prev_log_index))
                &&& final(self).inflight_append_entries.items() == accepted_after(
                    old(self).inflight_append_entries.items(),
                    (msg.term, msg.prev_log_index),
                    msg.from@,
                )
                &&& *final(self) == (Node {
                    inflight_append_entries: final(self).inflight_append_entries,
                    ..*old(self)
                })
            },
    {
        if msg.was_heartbeat || !msg.success {
            return false;
        }
        self.inflight_append_entries.record_success((msg.term, msg.prev_log_index), msg.from)
    }

    /// A leader asks to replicate entries (or sends a heartbeat). The election
    /// timer is to be reset exactly when the request is accepted.
    pub fn handle_append_entries(&mut self, msg: AppendEntries) -> (out: AppendEntriesOutcome)
        requires
            old(self).wf(),
        ensures
            final(self).wf(),
            append_entries_step(*old(self), *final(self), msg, out),
            final(self).state.current_term >= old(self).state.current_term,
    {
        let is_heartbeat = msg.entries.len() == 0;
        if msg.term < self.state.current_term {
            return AppendEntriesOutcome {
                response: AppendEntriesResponse::failure(
                    self.id.clone(),
                    self.state.current_term,
                    msg.prev_log_index,
                    is_heartbeat,
                ),
                save_log: false,
            };
        }
        if msg.term > self.state.current_term {
            self.state.current_term = msg.term;
            self.state.voted_for = None;
        }
        self.role = Role::Follower;
        let prev_matches = match self.state.log.get(msg.prev_log_index) {
            None => false,
            Some(entry) => entry.term == msg.prev_log_term,
        };
        if !prev_matches {
            return AppendEntriesOutcome {
                response: AppendEntriesResponse::failure(
                    self.id.clone(),
                    self.state.current_term,
                    msg.prev_log_index,
                    is_heartbeat,
                ),
                save_log: false,
            };
        }
        let log_len = self.state.log.entries.len();
        let prev = msg.prev_log_index as usize;
        let start = prev + 1;
        proof {
            crate::replication::lemma_merge_places_entries(self.state.log.entries@, start as int, msg.entries@);
        }
        merge_into(&mut self.state.log, start, &msg.entries);
        let mut save_log = false;
        if msg.leader_commit > self.state.commit_index {
            let last_new = (prev as u128) + (msg.entries.len() as u128);
            let target = if msg.leader_commit < last_new {
                msg.leader_commit
            } else {
                last_new
            };
            if target > self.state.commit_index {
                self.state.commit_index = target;
            }
            save_log = true;
        }
        AppendEntriesOutcome {
            response: AppendEntriesResponse::success(
                self.id.clone(),
                self.state.current_term,
                msg.prev_log_index,
                is_heartbeat,
            ),
            save_log,
        }
    }

    /// A peer answered one of this node's vote requests. Returns whether the
    /// election timer is to be reset.
    pub fn handle_request_vote_response(&mut self, msg: RequestVoteResponse) -> (reset: bool)
        requires
            old(self).wf(),
        ensures
            final(self).wf(),
            vote_response_step(*old(self), *final(self), msg, reset),
            final(self).state.current_term >= old(self).state.current_term,
    {
        if msg.term > self.state.current_term {
            self.state.current_term = msg.term;
            self.role = Role::Follower;
            self.state.voted_for = None;
            return true;
        }
        let is_candidate = match &self.role {
            Role::Candidate { .. } => true,
            _ => false,
        };
        if is_candidate {
            if msg.term == self.state.current_term && msg.vote_granted {
                let quorum = self.qourum();
                let yes_votes = match &mut self.role {
                    Role::Candidate { votes_received } => {
                        votes_received.insert(msg.from, true);
                        votes_received.count_true()
                    },
                    _ => 0,
                };
                if yes_votes >= quorum {
                    let last = self.state.log.len() as u128;
                    self.role = Role::Leader {
                        next_index: NodeMap::from_set(&self.peers, last),
                        match_index: NodeMap::from_set(&self.peers, 0),
                    };
                    self.state.next_index.insert_all(&self.peers, last);
                    self.state.match_index.insert_all(&self.peers, 0);
                }
            }
            false
        } else {
            true
        }
    }
}

} // verus!
