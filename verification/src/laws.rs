//! Properties of the library that relate several calls or hold of every state.

use vstd::prelude::*;

use crate::log::{latest_value, KvChange, LogEntry, LogEntryContent, LogIndex, Term};
use crate::messages::{AppendEntries, RequestVote, RequestVoteResponse, SetKey};
use crate::models::Role;
use crate::node::{
    append_entries_step, last_index_of, quorum_of, request_vote_step, set_key_step,
    vote_response_step, commit_after, AppendEntriesOutcome, Node,
};
use crate::inflight::{reached_quorum, Pending};
use crate::nodes::true_keys;
use crate::replication::{agreeing_prefix, agrees, lemma_merge_places_entries, merge_entries};

verus! {

/// Read your write: once a `Put` of `key` is the last entry of the log, a
/// lookup of `key` gives back the value it wrote.
pub proof fn law_lookup_after_put(entries: Seq<LogEntry>, term: Term, key: String, value: String)
    ensures
        latest_value(
            entries.push(LogEntry { term, content: LogEntryContent::Kv(KvChange::Put(key, value)) }),
            key@,
        ) == Some(value),
{
    let e = LogEntry { term, content: LogEntryContent::Kv(KvChange::Put(key, value)) };
    assert(entries.push(e).last() == e);
}

/// Once a `Delete` of `key` is the last entry of the log, a lookup of `key`
/// gives nothing.
pub proof fn law_lookup_after_delete(entries: Seq<LogEntry>, term: Term, key: String)
    ensures
        latest_value(
            entries.push(LogEntry { term, content: LogEntryContent::Kv(KvChange::Delete(key)) }),
            key@,
        ) is None,
{
    let e = LogEntry { term, content: LogEntryContent::Kv(KvChange::Delete(key)) };
    assert(entries.push(e).last() == e);
}

/// An appended entry that changes another key, or a null entry, leaves the
/// lookup of `key` as it was.
pub proof fn law_lookup_ignores_other_entries(entries: Seq<LogEntry>, e: LogEntry, key: Seq<char>)
    requires
        !(e.content matches LogEntryContent::Kv(KvChange::Put(k, v)) && k@ == key),
        !(e.content matches LogEntryContent::Kv(KvChange::Delete(k)) && k@ == key),
    ensures
        latest_value(entries.push(e), key) == latest_value(entries, key),
{
    assert(entries.push(e).drop_last() =~= entries);
    assert(entries.push(e).last() == e);
}

/// A node that handled a client's `SetKey` answers a lookup of that key with
/// the value just set.
pub proof fn law_read_after_set(pre: Node, post: Node, msg: SetKey, req: AppendEntries)
    requires
        set_key_step(pre, post, msg, req),
    ensures
        latest_value(post.state.log.entries@, msg.key@) == Some(msg.value),
{
    law_lookup_after_put(pre.state.log.entries@, pre.state.current_term, msg.key, msg.value);
}

/// Merging the same entries a second time changes nothing.
pub proof fn law_merge_idempotent(log: Seq<LogEntry>, start: int, entries: Seq<LogEntry>)
    requires
        0 <= start <= log.len(),
    ensures
        merge_entries(merge_entries(log, start, entries), start, entries) == merge_entries(log, start, entries),
{
    let r = merge_entries(log, start, entries);
    lemma_merge_places_entries(log, start, entries);
    crate::replication::lemma_agreeing_prefix(r, start, entries);
    let m2 = agreeing_prefix(r, start, entries);
    if m2 < entries.len() {
        assert(agrees(r, start, entries, m2 as int));
    }
}

/// After an accepted `AppendEntries`, the log keeps every entry up to and
/// including `prev_log_index`, and holds each new entry's term at its position.
pub proof fn law_accepted_entries_in_log(pre: Node, post: Node, msg: AppendEntries, out: AppendEntriesOutcome)
    requires
        pre.wf(),
        append_entries_step(pre, post, msg, out),
        out.response.success,
    ensures
        ({
            let prev = (msg.prev_log_index as usize) as int;
            &&& post.state.log.entries@.take(prev + 1) == pre.state.log.entries@.take(prev + 1)
            &&& forall|j: int|
                0 <= j < msg.entries@.len() ==> #[trigger] post.state.log.entries@[prev + 1 + j].term
                    == msg.entries@[j].term
            &&& post.state.log.entries@.len() >= prev + 1 + msg.entries@.len()
        }),
{
    let prev = (msg.prev_log_index as usize) as int;
    lemma_merge_places_entries(pre.state.log.entries@, prev + 1, msg.entries@);
    assert forall|j: int| 0 <= j < msg.entries@.len() implies #[trigger] post.state.log.entries@[prev + 1 + j].term
        == msg.entries@[j].term by {
        assert(agrees(post.state.log.entries@, prev + 1, msg.entries@, j));
    }
}

/// Handling the same `AppendEntries` twice leaves the node as handling it once
/// did, and gives the same answer.
pub proof fn law_append_entries_idempotent(
    n0: Node,
    n1: Node,
    n2: Node,
    msg: AppendEntries,
    o1: AppendEntriesOutcome,
    o2: AppendEntriesOutcome,
)
    requires
        n0.wf(),
        append_entries_step(n0, n1, msg, o1),
        append_entries_step(n1, n2, msg, o2),
    ensures
        n2.state.log.entries@ == n1.state.log.entries@,
        n2 == (Node { state: crate::models::State { log: n2.state.log, ..n1.state }, ..n1 }),
        o2.response == o1.response,
{
    let prev = (msg.prev_log_index as usize) as int;
    let log0 = n0.state.log.entries@;
    if o1.response.success {
        lemma_merge_places_entries(log0, prev + 1, msg.entries@);
        let log1 = n1.state.log.entries@;
        assert(log1.take(prev + 1)[prev] == log0.take(prev + 1)[prev]);
        law_merge_idempotent(log0, prev + 1, msg.entries@);
    }
}

/// A node grants its vote in a term to one candidate only: two granted vote
/// requests of the same term come from the same candidate.
pub proof fn law_one_vote_per_term(
    n0: Node,
    n1: Node,
    n2: Node,
    m1: RequestVote,
    m2: RequestVote,
    r1: RequestVoteResponse,
    r2: RequestVoteResponse,
)
    requires
        request_vote_step(n0, n1, m1, r1),
        request_vote_step(n1, n2, m2, r2),
        r1.vote_granted,
        r2.vote_granted,
        r2.term == r1.term,
    ensures
        m1.candidate_id@ == m2.candidate_id@,
{
}

/// A vote once cast is kept for the rest of its term, whatever vote request,
/// vote answer or `AppendEntries` request the node handles next.
pub proof fn law_vote_kept_within_term(
    pre: Node,
    post: Node,
    req: RequestVote,
    resp: RequestVoteResponse,
    answer: RequestVoteResponse,
    reset: bool,
    append: AppendEntries,
    out: AppendEntriesOutcome,
)
    requires
        request_vote_step(pre, post, req, resp) || vote_response_step(pre, post, answer, reset)
            || append_entries_step(pre, post, append, out),
        pre.state.voted_for is Some,
        post.state.current_term == pre.state.current_term,
    ensures
        post.state.voted_for == pre.state.voted_for,
{
}

/// A candidate becomes leader only once the peers that granted it their vote
/// in its term reach a quorum.
pub proof fn law_leader_only_with_quorum(pre: Node, post: Node, answer: RequestVoteResponse, reset: bool)
    requires
        vote_response_step(pre, post, answer, reset),
        pre.role is Candidate,
        post.role is Leader,
    ensures
        post.state.current_term == pre.state.current_term,
        pre.role matches Role::Candidate { votes_received }
            && true_keys(votes_received@.insert(answer.from@, true)).len() >= quorum_of(pre.peers.ids().len()),
{
}

/// A quorum is the smallest number of peers that is more than half of them.
pub proof fn law_quorum_is_majority(peers: nat)
    ensures
        2 * quorum_of(peers) > peers,
        2 * (quorum_of(peers) - 1) <= peers,
        quorum_of(peers) >= 1,
{
}

/// Any two quorums of the same peers share a peer.
pub proof fn law_quorums_intersect(peers: Set<Seq<char>>, a: Set<Seq<char>>, b: Set<Seq<char>>)
    requires
        peers.finite(),
        a.subset_of(peers),
        b.subset_of(peers),
        a.len() >= quorum_of(peers.len()),
        b.len() >= quorum_of(peers.len()),
    ensures
        exists|x: Seq<char>| a.contains(x) && b.contains(x),
{
    vstd::set_lib::lemma_len_subset(a, peers);
    vstd::set_lib::lemma_len_subset(b, peers);
    vstd::set_lib::lemma_set_intersect_union_lens(a, b);
    assert((a + b).subset_of(peers));
    vstd::set_lib::lemma_len_subset(a + b, peers);
    let i = a.intersect(b);
    assert(i.finite());
    vstd::set_lib::lemma_set_empty_equivalency_len(i);
    assert(i.len() != 0);
    let x = choose|x: Seq<char>| i.contains(x);
    assert(a.contains(x) && b.contains(x));
}

/// Election safety: in a cluster `nodes`, two different candidates cannot
/// both collect a quorum of their peers' votes in the same term, where each
/// node casts one vote in the term (`vote`) and each candidate votes for itself.
pub proof fn law_election_safety(
    nodes: Set<Seq<char>>,
    vote: spec_fn(Seq<char>) -> Option<Seq<char>>,
    c1: Seq<char>,
    c2: Seq<char>,
    a: Set<Seq<char>>,
    b: Set<Seq<char>>,
)
    requires
        nodes.finite(),
        nodes.contains(c1),
        nodes.contains(c2),
        c1 != c2,
        vote(c1) == Some(c1),
        vote(c2) == Some(c2),
        a.subset_of(nodes.remove(c1)),
        b.subset_of(nodes.remove(c2)),
        forall|p: Seq<char>| a.contains(p) ==> vote(p) == Some(c1),
        forall|p: Seq<char>| b.contains(p) ==> vote(p) == Some(c2),
    ensures
        !(a.len() >= quorum_of((nodes.len() - 1) as nat) && b.len() >= quorum_of((nodes.len() - 1) as nat)),
{
    if a.len() >= quorum_of((nodes.len() - 1) as nat) && b.len() >= quorum_of((nodes.len() - 1) as nat) {
        let rest = nodes.remove(c1).remove(c2);
        assert(a.subset_of(rest)) by {
            assert forall|p: Seq<char>| a.contains(p) implies rest.contains(p) by {
                if p == c2 {
                    assert(vote(p) == Some(c2));
                }
            }
        }
        assert(b.subset_of(rest)) by {
            assert forall|p: Seq<char>| b.contains(p) implies rest.contains(p) by {
                if p == c1 {
                    assert(vote(p) == Some(c1));
                }
            }
        }
        assert(rest.len() == nodes.len() - 2);
        vstd::set_lib::lemma_len_subset(a, rest);
        vstd::set_lib::lemma_len_subset(b, rest);
        vstd::set_lib::lemma_set_intersect_union_lens(a, b);
        assert((a + b).subset_of(rest));
        vstd::set_lib::lemma_len_subset(a + b, rest);
        let i = a.intersect(b);
        vstd::set_lib::lemma_set_empty_equivalency_len(i);
        assert(i.len() != 0);
        let x = choose|x: Seq<char>| i.contains(x);
        assert(vote(x) == Some(c1) && vote(x) == Some(c2));
    }
}

/// An `AppendEntries` request never moves the commit index down; where it
/// moves it up, the new commit index points into the log and is no further
/// than the leader's.
pub proof fn law_commit_within_log(pre: Node, post: Node, msg: AppendEntries, out: AppendEntriesOutcome)
    requires
        pre.wf(),
        append_entries_step(pre, post, msg, out),
    ensures
        post.state.commit_index >= pre.state.commit_index,
        post.state.commit_index > pre.state.commit_index ==> {
            &&& post.state.commit_index <= last_index_of(post.state.log.entries@)
            &&& post.state.commit_index <= msg.leader_commit
        },
{
    let prev = (msg.prev_log_index as usize) as int;
    if prev < pre.state.log.entries@.len() {
        lemma_merge_places_entries(pre.state.log.entries@, prev + 1, msg.entries@);
    }
    assert(post.state.log.entries.len() == post.state.log.entries@.len());
}

/// Every change that the periodic check commits was accepted by at least a
/// quorum of peers.
pub proof fn law_commit_needs_quorum(items: Seq<Pending>, quorum: nat, i: int)
    requires
        0 <= i < items.filter(|e: Pending| reached_quorum(e, quorum)).len(),
    ensures
        ({
            let committed = items.filter(|e: Pending| reached_quorum(e, quorum)).map_values(
                |e: Pending| e.0,
            );
            exists|j: int| 0 <= j < items.len() && items[j].0 == committed[i] && items[j].1.len() >= quorum
        }),
{
    let pred = |e: Pending| reached_quorum(e, quorum);
    let f = items.filter(pred);
    items.lemma_filter_pred(pred, i);
    assert(f.contains(f[i]));
    items.lemma_filter_contains_rev(pred, f[i]);
    assert(items.contains(f[i]));
    let j = choose|j: int| 0 <= j < items.len() && items[j] == f[i];
    assert(items[j].0 == f.map_values(|e: Pending| e.0)[i]);
}

/// The periodic check never moves the commit index down, and moves it up to
/// the index of every change it commits.
pub proof fn law_commit_never_decreases(commit: u128, keys: Seq<(Term, LogIndex)>)
    requires
        forall|j: int| 0 <= j < keys.len() ==> #[trigger] keys[j].1 < u128::MAX,
    ensures
        commit_after(commit, keys) >= commit,
        forall|j: int| 0 <= j < keys.len() ==> commit_after(commit, keys) >= #[trigger] keys[j].1 + 1,
    decreases keys.len(),
{
    if keys.len() > 0 {
        let rest = keys.drop_last();
        assert forall|j: int| 0 <= j < rest.len() implies #[trigger] rest[j].1 < u128::MAX by {
            assert(rest[j] == keys[j]);
        }
        law_commit_never_decreases(commit, rest);
        assert forall|j: int| 0 <= j < keys.len() implies commit_after(commit, keys) >= #[trigger] keys[j].1 + 1 by {
            if j < rest.len() {
                assert(rest[j] == keys[j]);
            }
        }
    }
}

/// An accepted `AppendEntries` whose new entries conflict with the log (the
/// first new entry `c` whose position the log reaches carries another term)
/// cuts the log there: the result is the old log up to that position followed
/// by the new entries from `c` on, so no old entry after the conflict survives.
pub proof fn law_conflict_cuts_log(
    pre: Node,
    post: Node,
    msg: AppendEntries,
    out: AppendEntriesOutcome,
    c: int,
)
    requires
        pre.wf(),
        append_entries_step(pre, post, msg, out),
        out.response.success,
        ({
            let log = pre.state.log.entries@;
            let start = (msg.prev_log_index as usize) as int + 1;
            &&& 0 <= c < msg.entries@.len()
            &&& start + c < log.len()
            &&& log[start + c].term != msg.entries@[c].term
            &&& forall|j: int| 0 <= j < c ==> start + j < log.len() && #[trigger] log[start + j].term == msg.entries@[j].term
        }),
    ensures
        ({
            let log = pre.state.log.entries@;
            let after = post.state.log.entries@;
            let start = (msg.prev_log_index as usize) as int + 1;
            &&& after.len() == start + msg.entries@.len()
            &&& after.take(start + c) == log.take(start + c)
            &&& after.skip(start + c) == msg.entries@.skip(c)
        }),
{
    let log = pre.state.log.entries@;
    let start = (msg.prev_log_index as usize) as int + 1;
    let e = msg.entries@;
    crate::replication::lemma_agreeing_prefix(log, start, e);
    let m = agreeing_prefix(log, start, e);
    if m < c {
        assert(log[start + m].term == e[m as int].term);
        assert(agrees(log, start, e, m as int));
    }
    if m > c {
        assert(agrees(log, start, e, c));
    }
    assert(m == c);
    let after = post.state.log.entries@;
    assert(after =~= log.take(start + c) + e.skip(c));
    assert(after.take(start + c) =~= log.take(start + c));
    assert(after.skip(start + c) =~= e.skip(c));
}

/// An accepted `AppendEntries` whose new entries agree with the log wherever
/// the log reaches keeps the whole old log and adds the new entries that lie
/// beyond its end.
pub proof fn law_agreeing_entries_extend_log(pre: Node, post: Node, msg: AppendEntries, out: AppendEntriesOutcome)
    requires
        pre.wf(),
        append_entries_step(pre, post, msg, out),
        out.response.success,
        ({
            let log = pre.state.log.entries@;
            let start = (msg.prev_log_index as usize) as int + 1;
            forall|j: int|
                0 <= j < msg.entries@.len() && start + j < log.len() ==> #[trigger] log[start + j].term
                    == msg.entries@[j].term
        }),
    ensures
        ({
            let log = pre.state.log.entries@;
            let after = post.state.log.entries@;
            let start = (msg.prev_log_index as usize) as int + 1;
            &&& after.take(log.len() as int) == log
            &&& after.len() == (if start + msg.entries@.len() > log.len() {
                start + msg.entries@.len()
            } else {
                log.len() as int
            })
            &&& forall|j: int|
                0 <= j < msg.entries@.len() && start + j >= log.len() ==> after[start + j] == #[trigger] msg.entries@[j]
        }),
{
    let log = pre.state.log.entries@;
    let start = (msg.prev_log_index as usize) as int + 1;
    let e = msg.entries@;
    crate::replication::lemma_agreeing_prefix(log, start, e);
    let m = agreeing_prefix(log, start, e);
    let after = post.state.log.entries@;
    if m < e.len() {
        if start + m < log.len() {
            assert(agrees(log, start, e, m as int));
        }
        if m > 0 {
            assert(agrees(log, start, e, m - 1));
        }
        assert(start + m == log.len());
        assert(after =~= log + e.skip(m as int));
        assert(after.take(log.len() as int) =~= log);
        assert forall|j: int| 0 <= j < e.len() && start + j >= log.len() implies after[start + j] == #[trigger] e[j] by {
            assert(after[start + j] == e.skip(m as int)[j - m]);
        }
    } else {
        if e.len() > 0 {
            assert(agrees(log, start, e, e.len() - 1));
        }
        assert(after.take(log.len() as int) =~= log);
    }
}

/// A vote request that is current for the voter (of a later term, or of its
/// term with its vote still free or already given to this candidate) from a
/// candidate whose last log term is newer than the voter's last entry is
/// granted, whatever the candidate's last log index, and the voter then holds
/// its vote for that candidate.
pub proof fn law_newer_log_gets_vote(pre: Node, post: Node, msg: RequestVote, resp: RequestVoteResponse)
    requires
        pre.wf(),
        request_vote_step(pre, post, msg, resp),
        msg.term > pre.state.current_term || (msg.term == pre.state.current_term && (pre.state.voted_for is None
            || pre.state.voted_for->0@ == msg.candidate_id@)),
        msg.last_log_term > pre.state.log.entries@.last().term,
    ensures
        resp.vote_granted,
        resp.term == msg.term,
        post.state.voted_for is Some && post.state.voted_for->0@ == msg.candidate_id@,
{
}

/// A candidate whose last log term is older than the voter's last entry never
/// gets the vote.
pub proof fn law_older_log_denied(pre: Node, post: Node, msg: RequestVote, resp: RequestVoteResponse)
    requires
        pre.wf(),
        request_vote_step(pre, post, msg, resp),
        msg.last_log_term < pre.state.log.entries@.last().term,
    ensures
        !resp.vote_granted,
{
}

/// Between a candidate and a voter whose last entries have the same term, the
/// vote (where it is current and free for the candidate) goes to the
/// candidate exactly when its log is at least as long as the voter's.
pub proof fn law_equal_term_compares_length(pre: Node, post: Node, msg: RequestVote, resp: RequestVoteResponse)
    requires
        pre.wf(),
        request_vote_step(pre, post, msg, resp),
        msg.term > pre.state.current_term || (msg.term == pre.state.current_term && (pre.state.voted_for is None
            || pre.state.voted_for->0@ == msg.candidate_id@)),
        msg.last_log_term == pre.state.log.entries@.last().term,
    ensures
        resp.vote_granted <==> msg.last_log_index >= pre.state.log.entries@.len() - 1,
{
}

/// A follower whose log equals the leader's before a `SetKey` accepts the
/// request the leader sends for it, and its log then equals the leader's.
pub proof fn law_set_key_request_fits_followers(
    pre: Node,
    post: Node,
    msg: SetKey,
    req: AppendEntries,
    f: Node,
    f_after: Node,
    out: AppendEntriesOutcome,
)
    requires
        pre.wf(),
        set_key_step(pre, post, msg, req),
        f.wf(),
        f.state.log.entries@ == pre.state.log.entries@,
        f.state.current_term <= pre.state.current_term,
        append_entries_step(f, f_after, req, out),
    ensures
        out.response.success,
        f_after.state.log.entries@ == post.state.log.entries@,
        req.prev_log_term == pre.state.log.entries@[req.prev_log_index as int].term,
        req.prev_log_index == pre.state.log.entries@.len() - 1,
{
    let log = pre.state.log.entries@;
    assert(pre.state.log.entries.len() == log.len());
    let n = log.len();
    assert(req.prev_log_index == n - 1);
    assert((req.prev_log_index as usize) as int == n - 1);
    let e = req.entries@;
    crate::replication::lemma_agreeing_prefix(log, n as int, e);
    assert(!agrees(log, n as int, e, 0));
    assert(agreeing_prefix(log, n as int, e) == 0);
    assert(f_after.state.log.entries@ =~= log.push(e[0]));
}

/// A follower whose log equals the leader's and whose commit index is behind
/// the leader's accepts the leader's heartbeat and moves its commit index up
/// to the leader's (where the leader's points into its log).
pub proof fn law_heartbeat_carries_commit(
    pre: Node,
    hb: AppendEntries,
    f: Node,
    f_after: Node,
    out: AppendEntriesOutcome,
)
    requires
        pre.wf(),
        pre.role is Leader,
        crate::node::is_heartbeat_of(pre, hb),
        pre.state.commit_index <= pre.state.log.entries@.len() - 1,
        f.wf(),
        f.state.log.entries@ == pre.state.log.entries@,
        f.state.current_term <= pre.state.current_term,
        f.state.commit_index < pre.state.commit_index,
        append_entries_step(f, f_after, hb, out),
    ensures
        out.response.success,
        f_after.state.commit_index == pre.state.commit_index,
        f_after.state.log.entries@ == f.state.log.entries@,
{
    let log = pre.state.log.entries@;
    assert(pre.state.log.entries.len() == log.len());
    let n = log.len();
    assert((hb.prev_log_index as usize) as int == n - 1);
    crate::replication::lemma_agreeing_prefix(log, n as int, hb.entries@);
}

/// The changes that the periodic check commits are exactly those that at
/// least a quorum of peers accepted: each such change is committed, each other
/// change stays tracked, and no tracked change has reached the quorum.
pub proof fn law_quorum_accepted_changes_commit(
    items: Seq<Pending>,
    quorum: nat,
    committed: Seq<(Term, LogIndex)>,
    kept: Seq<Pending>,
)
    requires
        committed == items.filter(|e: Pending| reached_quorum(e, quorum)).map_values(|e: Pending| e.0),
        kept == items.filter(|e: Pending| !reached_quorum(e, quorum)),
    ensures
        forall|i: int| 0 <= i < items.len() && items[i].1.len() >= quorum ==> committed.contains(#[trigger] items[i].0),
        forall|i: int| 0 <= i < items.len() && items[i].1.len() < quorum ==> kept.contains(#[trigger] items[i]),
        forall|i: int| 0 <= i < kept.len() ==> (#[trigger] kept[i]).1.len() < quorum,
{
    let yes = |e: Pending| reached_quorum(e, quorum);
    let no = |e: Pending| !reached_quorum(e, quorum);
    assert forall|i: int| 0 <= i < items.len() && items[i].1.len() >= quorum implies committed.contains(
        #[trigger] items[i].0,
    ) by {
        items.lemma_filter_contains(yes, i);
        let f = items.filter(yes);
        let k = choose|k: int| 0 <= k < f.len() && f[k] == items[i];
        assert(committed[k] == items[i].0);
    }
    assert forall|i: int| 0 <= i < items.len() && items[i].1.len() < quorum implies kept.contains(#[trigger] items[i]) by {
        items.lemma_filter_contains(no, i);
    }
    assert forall|i: int| 0 <= i < kept.len() implies (#[trigger] kept[i]).1.len() < quorum by {
        items.lemma_filter_pred(no, i);
    }
}

/// A node with a single peer commits a change as soon as that peer accepted
/// it: the quorum of one peer is one.
pub proof fn law_single_peer_commits(items: Seq<Pending>, committed: Seq<(Term, LogIndex)>, i: int)
    requires
        committed == items.filter(|e: Pending| reached_quorum(e, quorum_of(1))).map_values(|e: Pending| e.0),
        0 <= i < items.len(),
        items[i].1.len() >= 1,
    ensures
        committed.contains(items[i].0),
{
    assert(quorum_of(1) == 1);
    law_quorum_accepted_changes_commit(
        items,
        quorum_of(1),
        committed,
        items.filter(|e: Pending| !reached_quorum(e, quorum_of(1))),
    );
}

} // verus!
