use liferaft::log::{KvChange, Log, LogEntry, LogEntryContent};
use liferaft::messages::{
    AppendEntries, AppendEntriesResponse, GetKey, RequestVote, RequestVoteResponse, SetKey,
};
use liferaft::models::Role;
use liferaft::node::{reply_after_save, Node};
use liferaft::nodes::NodeSet;

fn peers(ids: &[&str]) -> NodeSet {
    let mut s = NodeSet::new();
    for id in ids {
        s.insert(id.to_string());
    }
    s
}

fn entry(term: u128, key: &str, value: &str) -> LogEntry {
    LogEntry {
        term,
        content: LogEntryContent::Kv(KvChange::Put(key.to_string(), value.to_string())),
    }
}

fn node_with_log(id: &str, peer_ids: &[&str], stored: Option<Vec<LogEntry>>) -> Node {
    Node::with_timeouts(
        id.to_string(),
        peers(peer_ids),
        Log::new("log.json".to_string(), stored),
        0,
        None,
        3000,
        500,
    )
}

fn follower() -> Node {
    node_with_log("1234", &["1235", "1236"], None)
}

fn leader() -> Node {
    let mut n = follower();
    n.handle_election_timeout().request.unwrap();
    n.handle_request_vote_response(RequestVoteResponse::granted("1235".to_string(), 1));
    n.handle_request_vote_response(RequestVoteResponse::granted("1236".to_string(), 1));
    assert!(matches!(n.role, Role::Leader { .. }));
    n
}

fn append(term: u128, prev_log_index: u128, prev_log_term: u128, entries: Vec<LogEntry>, leader_commit: u128) -> AppendEntries {
    AppendEntries { term, leader_id: "1235".to_string(), prev_log_index, prev_log_term, entries, leader_commit }
}

#[test]
fn node_1234_waits_three_seconds() {
    let n = Node::initialize("1234".to_string(), peers(&["1235"]), Log::new("p".to_string(), None), 0, None, 100);
    assert_eq!(n.election_timeout_interval_ms, 3000);
    assert_eq!(n.heartbeat_interval_ms, 100);
    assert!(matches!(n.role, Role::Follower));
    assert_eq!(n.state.current_term, 0);
    assert_eq!(n.state.voted_for, None);
    assert_eq!(n.state.commit_index, 0);
}

#[test]
fn other_nodes_wait_five_to_forty_seconds() {
    let mut seen = std::collections::HashSet::new();
    for _ in 0..200 {
        let n = Node::initialize("1235".to_string(), peers(&["1234"]), Log::new("p".to_string(), None), 0, None, 100);
        let t = n.election_timeout_interval_ms;
        assert!((5000..=40000).contains(&t), "{}", t);
        assert_eq!(t % 1000, 0);
        seen.insert(t);
    }
    assert!(seen.len() > 1);
}

#[test]
fn restart_keeps_stored_term_and_vote() {
    let n = Node::initialize(
        "1234".to_string(),
        peers(&["1235"]),
        Log::new("p".to_string(), None),
        7,
        Some("1235".to_string()),
        100,
    );
    assert_eq!(n.state.current_term, 7);
    assert_eq!(n.state.voted_for, Some("1235".to_string()));
    assert!(matches!(n.role, Role::Follower));
}

#[test]
fn commit_index_starts_at_stored_length() {
    let n = node_with_log("1", &["2"], Some(vec![LogEntry::null(), entry(1, "a", "1"), entry(1, "b", "2")]));
    assert_eq!(n.state.commit_index, 2);
}

#[test]
fn quorum_is_a_majority_of_peers() {
    assert_eq!(node_with_log("1", &[], None).qourum(), 1);
    assert_eq!(node_with_log("1", &["2"], None).qourum(), 1);
    assert_eq!(node_with_log("1", &["2", "3"], None).qourum(), 2);
    assert_eq!(node_with_log("1", &["2", "3", "4"], None).qourum(), 2);
    assert_eq!(node_with_log("1", &["2", "3", "4", "5"], None).qourum(), 3);
}

#[test]
fn vote_granted_to_up_to_date_candidate() {
    let mut n = follower();
    let r = n.handle_request_vote(RequestVote { term: 1, candidate_id: "1235".to_string(), last_log_index: 0, last_log_term: 0 });
    assert_eq!(r, RequestVoteResponse::granted("1234".to_string(), 1));
    assert_eq!(n.state.current_term, 1);
    assert_eq!(n.state.voted_for, Some("1235".to_string()));
}

#[test]
fn only_one_vote_per_term() {
    let mut n = follower();
    let first = n.handle_request_vote(RequestVote { term: 1, candidate_id: "1235".to_string(), last_log_index: 0, last_log_term: 0 });
    assert!(first.vote_granted);
    let second = n.handle_request_vote(RequestVote { term: 1, candidate_id: "1236".to_string(), last_log_index: 5, last_log_term: 1 });
    assert_eq!(second, RequestVoteResponse::denied("1234".to_string(), 1));
    assert_eq!(n.state.voted_for, Some("1235".to_string()));
    let again = n.handle_request_vote(RequestVote { term: 1, candidate_id: "1235".to_string(), last_log_index: 0, last_log_term: 0 });
    assert_eq!(again, RequestVoteResponse::granted("1234".to_string(), 1));
    assert_eq!(n.state.voted_for, Some("1235".to_string()));
}

#[test]
fn vote_denied_for_stale_term_or_log() {
    let mut n = node_with_log("1234", &["1235"], Some(vec![LogEntry::null(), entry(2, "a", "1")]));
    n.state.current_term = 3;
    let stale_term = n.handle_request_vote(RequestVote { term: 2, candidate_id: "1235".to_string(), last_log_index: 9, last_log_term: 9 });
    assert_eq!(stale_term, RequestVoteResponse::denied("1234".to_string(), 3));
    let older_log = n.handle_request_vote(RequestVote { term: 3, candidate_id: "1235".to_string(), last_log_index: 9, last_log_term: 1 });
    assert!(!older_log.vote_granted);
    let shorter_log = n.handle_request_vote(RequestVote { term: 3, candidate_id: "1235".to_string(), last_log_index: 0, last_log_term: 2 });
    assert!(!shorter_log.vote_granted);
    assert_eq!(n.state.voted_for, None);
    let same_log = n.handle_request_vote(RequestVote { term: 3, candidate_id: "1235".to_string(), last_log_index: 1, last_log_term: 2 });
    assert!(same_log.vote_granted);
}

#[test]
fn later_term_turns_leader_into_follower() {
    let mut n = leader();
    let r = n.handle_request_vote(RequestVote { term: 7, candidate_id: "1236".to_string(), last_log_index: 0, last_log_term: 0 });
    assert!(matches!(n.role, Role::Follower));
    assert_eq!(n.state.current_term, 7);
    assert_eq!(r, RequestVoteResponse::granted("1234".to_string(), 7));
}

#[test]
fn election_timeout_starts_an_election() {
    let mut n = follower();
    let out = n.handle_election_timeout();
    assert!(out.reset_election_timer);
    let req = out.request.unwrap();
    assert_eq!(req, RequestVote { term: 1, candidate_id: "1234".to_string(), last_log_index: 0, last_log_term: 0 });
    assert_eq!(n.state.current_term, 1);
    assert_eq!(n.state.voted_for, Some("1234".to_string()));
    match &n.role {
        Role::Candidate { votes_received } => {
            assert_eq!(votes_received.len(), 2);
            assert_eq!(votes_received.get(&"1235".to_string()), Some(&false));
        }
        other => panic!("{:?}", other),
    }
    let again = n.handle_election_timeout();
    assert!(again.reset_election_timer);
    assert_eq!(again.request.unwrap().term, 2);
    assert_eq!(n.state.current_term, 2);
}

#[test]
fn election_request_carries_last_log_position() {
    let mut n = node_with_log("1", &["2"], Some(vec![LogEntry::null(), entry(1, "a", "1"), entry(4, "b", "2")]));
    n.state.current_term = 4;
    let req = n.handle_election_timeout().request.unwrap();
    assert_eq!(req, RequestVote { term: 5, candidate_id: "1".to_string(), last_log_index: 2, last_log_term: 4 });
}

#[test]
fn leader_ignores_election_timeout() {
    let mut n = leader();
    let term = n.state.current_term;
    let out = n.handle_election_timeout();
    assert_eq!(out.request, None);
    assert!(!out.reset_election_timer);
    assert_eq!(n.state.current_term, term);
    assert!(matches!(n.role, Role::Leader { .. }));
}

#[test]
fn candidate_becomes_leader_with_a_quorum_of_votes() {
    let mut n = follower();
    n.handle_election_timeout();
    let reset = n.handle_request_vote_response(RequestVoteResponse::granted("1235".to_string(), 1));
    assert!(!reset);
    assert!(matches!(n.role, Role::Candidate { .. }));
    n.handle_request_vote_response(RequestVoteResponse::granted("1235".to_string(), 1));
    assert!(matches!(n.role, Role::Candidate { .. }));
    let reset = n.handle_request_vote_response(RequestVoteResponse::granted("1236".to_string(), 1));
    assert!(!reset);
    match &n.role {
        Role::Leader { next_index, match_index } => {
            assert_eq!(next_index.get(&"1235".to_string()), Some(&0));
            assert_eq!(next_index.get(&"1236".to_string()), Some(&0));
            assert_eq!(match_index.get(&"1236".to_string()), Some(&0));
        }
        other => panic!("{:?}", other),
    }
    assert_eq!(n.state.next_index.len(), 2);
    assert_eq!(n.state.match_index.get(&"1235".to_string()), Some(&0));
}

#[test]
fn first_vote_of_four_peers_does_not_elect() {
    let mut n = node_with_log("1", &["2", "3", "4", "5"], None);
    n.handle_election_timeout();
    n.handle_request_vote_response(RequestVoteResponse::granted("2".to_string(), 1));
    n.handle_request_vote_response(RequestVoteResponse::denied("3".to_string(), 1));
    n.handle_request_vote_response(RequestVoteResponse::granted("2".to_string(), 1));
    assert!(matches!(n.role, Role::Candidate { .. }));
    n.handle_request_vote_response(RequestVoteResponse::granted("4".to_string(), 1));
    assert!(matches!(n.role, Role::Candidate { .. }));
    n.handle_request_vote_response(RequestVoteResponse::granted("5".to_string(), 1));
    assert!(matches!(n.role, Role::Leader { .. }));
}

#[test]
fn candidate_ignores_denied_or_stale_votes() {
    let mut n = follower();
    n.handle_election_timeout();
    n.handle_request_vote_response(RequestVoteResponse::denied("1235".to_string(), 1));
    n.handle_request_vote_response(RequestVoteResponse::denied("1236".to_string(), 1));
    assert!(matches!(n.role, Role::Candidate { .. }));
    n.handle_request_vote_response(RequestVoteResponse::granted("1235".to_string(), 0));
    n.handle_request_vote_response(RequestVoteResponse::granted("1236".to_string(), 0));
    assert!(matches!(n.role, Role::Candidate { .. }));
    assert_eq!(n.state.current_term, 1);
}

#[test]
fn candidate_steps_down_on_later_term() {
    let mut n = follower();
    n.handle_election_timeout();
    let reset = n.handle_request_vote_response(RequestVoteResponse::denied("1235".to_string(), 9));
    assert!(reset);
    assert!(matches!(n.role, Role::Follower));
    assert_eq!(n.state.current_term, 9);
    assert_eq!(n.state.voted_for, None);
}

#[test]
fn candidate_without_peers_needs_a_recorded_vote() {
    let mut n = node_with_log("1", &[], None);
    n.handle_election_timeout();
    n.handle_request_vote_response(RequestVoteResponse::granted("2".to_string(), 1));
    assert!(matches!(n.role, Role::Leader { .. }));
}

#[test]
fn follower_steps_up_term_on_vote_response() {
    let mut n = follower();
    assert!(n.handle_request_vote_response(RequestVoteResponse::denied("1235".to_string(), 4)));
    assert_eq!(n.state.current_term, 4);
    assert_eq!(n.state.voted_for, None);
    assert!(n.handle_request_vote_response(RequestVoteResponse::denied("1235".to_string(), 2)));
    assert_eq!(n.state.current_term, 4);
}

#[test]
fn heartbeat_only_from_leader() {
    assert_eq!(follower().heartbeat_for_followers(), None);
    let mut n = leader();
    n.state.commit_index = 0;
    let hb = n.heartbeat_for_followers().unwrap();
    assert_eq!(
        hb,
        AppendEntries { term: 1, leader_id: "1234".to_string(), prev_log_index: 0, prev_log_term: 0, entries: Vec::new(), leader_commit: 0 }
    );
}

#[test]
fn append_entries_rejects_stale_term() {
    let mut n = follower();
    n.state.current_term = 2;
    let out = n.handle_append_entries(append(1, 0, 0, vec![entry(1, "a", "1")], 0));
    assert_eq!(out.response, AppendEntriesResponse::failure("1234".to_string(), 2, 0, false));
    assert!(!out.save_log);
    assert_eq!(n.state.log.entries.len(), 1);
}

#[test]
fn append_entries_rejects_missing_or_mismatched_prev() {
    let mut n = node_with_log("1234", &["1235"], Some(vec![LogEntry::null(), entry(1, "a", "1")]));
    let missing = n.handle_append_entries(append(1, 5, 1, vec![entry(1, "b", "2")], 0));
    assert_eq!(missing.response, AppendEntriesResponse::failure("1234".to_string(), 1, 5, false));
    assert_eq!(n.state.current_term, 1);
    let mismatched = n.handle_append_entries(append(1, 1, 2, Vec::new(), 0));
    assert_eq!(mismatched.response, AppendEntriesResponse::failure("1234".to_string(), 1, 1, true));
    assert_eq!(n.state.log.entries.len(), 2);
}

#[test]
fn heartbeat_is_accepted() {
    let mut n = follower();
    let out = n.handle_append_entries(append(0, 0, 0, Vec::new(), 0));
    assert_eq!(out.response, AppendEntriesResponse::success("1234".to_string(), 0, 0, true));
    assert!(!out.save_log);
}

#[test]
fn append_entries_appends_and_commits() {
    let mut n = follower();
    let out = n.handle_append_entries(append(1, 0, 0, vec![entry(1, "a", "1"), entry(1, "b", "2")], 5));
    assert!(out.response.success);
    assert!(out.save_log);
    assert_eq!(n.state.log.entries, vec![LogEntry::null(), entry(1, "a", "1"), entry(1, "b", "2")]);
    assert_eq!(n.state.commit_index, 2);
    assert_eq!(n.state.current_term, 1);
}

#[test]
fn append_entries_from_leader_makes_candidate_follow() {
    let mut n = follower();
    n.handle_election_timeout();
    let out = n.handle_append_entries(append(1, 0, 0, Vec::new(), 0));
    assert!(out.response.success);
    assert!(matches!(n.role, Role::Follower));
    assert_eq!(n.state.current_term, 1);
    assert_eq!(n.state.voted_for, Some("1234".to_string()));
    let later = n.handle_append_entries(append(3, 0, 0, Vec::new(), 0));
    assert_eq!(later.response, AppendEntriesResponse::success("1234".to_string(), 3, 0, true));
    assert_eq!(n.state.current_term, 3);
    assert_eq!(n.state.voted_for, None);
}

#[test]
fn heartbeat_commits_only_up_to_its_position() {
    let mut n = node_with_log("1234", &["1235"], Some(vec![LogEntry::null(), entry(1, "a", "1"), entry(1, "b", "2")]));
    n.state.commit_index = 0;
    let out = n.handle_append_entries(append(1, 1, 1, Vec::new(), 5));
    assert!(out.save_log);
    assert_eq!(n.state.commit_index, 1);
    assert_eq!(n.state.log.entries.len(), 3);
}

#[test]
fn heartbeat_never_lowers_commit_index() {
    let mut n = node_with_log("1234", &["1235"], Some(vec![LogEntry::null(), entry(1, "a", "1"), entry(1, "b", "2")]));
    assert_eq!(n.state.commit_index, 2);
    let out = n.handle_append_entries(append(1, 1, 1, Vec::new(), 10));
    assert!(out.response.success);
    assert!(out.save_log);
    assert_eq!(n.state.commit_index, 2);
}

#[test]
fn node_map_entry_follows_insertion_order() {
    let mut m: liferaft::nodes::NodeMap<u128> = liferaft::nodes::NodeMap::new();
    m.insert("x".to_string(), 1);
    m.insert("y".to_string(), 2);
    assert_eq!(m.entry(0), (&"x".to_string(), &1));
    assert_eq!(m.entry(1), (&"y".to_string(), &2));
}

#[test]
fn failed_save_turns_answer_into_refusal() {
    let ok = || AppendEntriesResponse::success("1".to_string(), 2, 3, false);
    assert_eq!(reply_after_save(ok(), true), ok());
    assert_eq!(reply_after_save(ok(), false), AppendEntriesResponse::failure("1".to_string(), 2, 3, false));
    let refused = || AppendEntriesResponse::failure("1".to_string(), 2, 3, true);
    assert_eq!(reply_after_save(refused(), false), refused());
    assert_eq!(reply_after_save(refused(), true), refused());
}

#[test]
fn append_entries_commit_takes_leader_commit_when_smaller() {
    let mut n = follower();
    n.state.commit_index = 0;
    let out = n.handle_append_entries(append(1, 0, 0, vec![entry(1, "a", "1"), entry(1, "b", "2")], 1));
    assert!(out.save_log);
    assert_eq!(n.state.commit_index, 1);
}

#[test]
fn append_entries_replaces_conflicting_suffix() {
    let stored = vec![LogEntry::null(), entry(1, "a", "1"), entry(1, "b", "2"), entry(1, "c", "3")];
    let mut n = node_with_log("1234", &["1235"], Some(stored));
    let out = n.handle_append_entries(append(2, 1, 1, vec![entry(1, "x", "x"), entry(2, "d", "4")], 0));
    assert!(out.response.success);
    assert!(!out.save_log);
    assert_eq!(
        n.state.log.entries,
        vec![LogEntry::null(), entry(1, "a", "1"), entry(1, "b", "2"), entry(2, "d", "4")]
    );
}

#[test]
fn append_entries_keeps_matching_entries_and_tail() {
    let stored = vec![LogEntry::null(), entry(1, "a", "1"), entry(1, "b", "2"), entry(1, "c", "3")];
    let mut n = node_with_log("1234", &["1235"], Some(stored.clone()));
    let out = n.handle_append_entries(append(1, 0, 0, vec![entry(1, "other", "value")], 0));
    assert!(out.response.success);
    assert_eq!(n.state.log.entries, stored);
}

#[test]
fn append_entries_twice_is_same_as_once() {
    let mut n = node_with_log("1234", &["1235"], Some(vec![LogEntry::null(), entry(1, "a", "1"), entry(1, "b", "2")]));
    let msg = || append(2, 1, 1, vec![entry(2, "c", "3"), entry(2, "d", "4")], 7);
    let first = n.handle_append_entries(msg());
    let after_first = n.state.log.entries.clone();
    let commit_first = n.state.commit_index;
    let second = n.handle_append_entries(msg());
    assert_eq!(first.response, second.response);
    assert_eq!(n.state.log.entries, after_first);
    assert_eq!(n.state.commit_index, commit_first);
    assert_eq!(commit_first, 3);
}

#[test]
fn set_key_then_get_key_reads_the_value() {
    let mut n = leader();
    let req = n.handle_set_key(SetKey { key: "k".to_string(), value: "v".to_string() });
    assert_eq!(
        req,
        AppendEntries {
            term: 1,
            leader_id: "1234".to_string(),
            prev_log_index: 0,
            prev_log_term: 0,
            entries: vec![entry(1, "k", "v")],
            leader_commit: n.state.commit_index,
        }
    );
    assert_eq!(n.state.log.entries.len(), 2);
    let got = n.handle_get_key(GetKey { key: "k".to_string() });
    assert!(got.success);
    assert_eq!(got.value, Some("v".to_string()));
    let missing = n.handle_get_key(GetKey { key: "other".to_string() });
    assert!(missing.success);
    assert_eq!(missing.value, None);
}

#[test]
fn change_commits_once_a_quorum_accepts() {
    let mut n = leader();
    n.state.commit_index = 0;
    let first = n.handle_set_key(SetKey { key: "a".to_string(), value: "1".to_string() });
    let second = n.handle_set_key(SetKey { key: "b".to_string(), value: "2".to_string() });
    assert_eq!((first.term, first.prev_log_index), (1, 0));
    assert_eq!((second.term, second.prev_log_index), (1, 1));
    assert_eq!(n.check_inflight_append_entries(), Vec::<(u128, u128)>::new());

    let ok = |from: &str, prev: u128| AppendEntriesResponse::success(from.to_string(), 1, prev, false);
    assert!(n.handle_append_entries_response(ok("1235", 1)));
    assert_eq!(n.check_inflight_append_entries(), Vec::<(u128, u128)>::new());
    assert!(n.handle_append_entries_response(ok("1236", 1)));
    assert!(n.handle_append_entries_response(ok("1235", 0)));
    assert!(n.handle_append_entries_response(ok("1235", 0)));
    assert_eq!(n.check_inflight_append_entries(), vec![(1, 1)]);
    assert_eq!(n.state.commit_index, 2);
    assert!(n.handle_append_entries_response(ok("1236", 0)));
    assert_eq!(n.check_inflight_append_entries(), vec![(1, 0)]);
    assert_eq!(n.state.commit_index, 2);
    assert!(!n.handle_append_entries_response(ok("1236", 0)));
}

#[test]
fn heartbeat_answers_and_unknown_changes_are_not_recorded() {
    let mut n = leader();
    n.handle_set_key(SetKey { key: "a".to_string(), value: "1".to_string() });
    assert!(!n.handle_append_entries_response(AppendEntriesResponse::success("1235".to_string(), 1, 0, true)));
    assert!(!n.handle_append_entries_response(AppendEntriesResponse::success("1235".to_string(), 9, 0, false)));
    assert_eq!(n.check_inflight_append_entries(), Vec::<(u128, u128)>::new());
}

#[test]
fn refused_answer_is_not_counted() {
    let mut n = leader();
    n.state.commit_index = 0;
    n.handle_set_key(SetKey { key: "a".to_string(), value: "1".to_string() });
    assert!(!n.handle_append_entries_response(AppendEntriesResponse::failure("1235".to_string(), 1, 0, false)));
    assert!(!n.handle_append_entries_response(AppendEntriesResponse::failure("1236".to_string(), 1, 0, false)));
    assert_eq!(n.check_inflight_append_entries(), Vec::<(u128, u128)>::new());
    assert_eq!(n.state.commit_index, 0);
}

#[test]
fn delete_through_the_log_hides_the_value() {
    let mut n = follower();
    let del = LogEntry { term: 1, content: LogEntryContent::Kv(KvChange::Delete("k".to_string())) };
    n.handle_append_entries(append(1, 0, 0, vec![entry(1, "k", "v"), del], 0));
    assert_eq!(n.handle_get_key(GetKey { key: "k".to_string() }).value, None);
}

#[test]
fn resending_a_change_starts_its_count_over() {
    let mut n = leader();
    n.handle_set_key(SetKey { key: "a".to_string(), value: "1".to_string() });
    assert!(n.handle_append_entries_response(AppendEntriesResponse::success("1235".to_string(), 1, 0, false)));
    n.state.log.truncate(1);
    n.handle_set_key(SetKey { key: "a".to_string(), value: "2".to_string() });
    assert!(n.handle_append_entries_response(AppendEntriesResponse::success("1236".to_string(), 1, 0, false)));
    assert_eq!(n.check_inflight_append_entries(), Vec::<(u128, u128)>::new());
}
