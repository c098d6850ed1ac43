use liferaft::messages::{
    AppendEntriesResponse, GetKeyResponse, RequestVoteResponse, SetKeyResponse,
};
use liferaft::models::Role;
use liferaft::nodes::{NodeMap, NodeSet};

#[test]
fn vote_responses() {
    let g = RequestVoteResponse::granted("1".to_string(), 4);
    assert_eq!(g.from, "1");
    assert_eq!(g.term, 4);
    assert!(g.vote_granted);
    let d = RequestVoteResponse::denied("2".to_string(), 5);
    assert_eq!(d.from, "2");
    assert_eq!(d.term, 5);
    assert!(!d.vote_granted);
}

#[test]
fn append_entries_responses() {
    let s = AppendEntriesResponse::success("1".to_string(), 3, 9, true);
    assert_eq!(
        s,
        AppendEntriesResponse { from: "1".to_string(), term: 3, success: true, prev_log_index: 9, was_heartbeat: true }
    );
    let f = AppendEntriesResponse::failure("2".to_string(), 4, 1, false);
    assert_eq!(
        f,
        AppendEntriesResponse { from: "2".to_string(), term: 4, success: false, prev_log_index: 1, was_heartbeat: false }
    );
}

#[test]
fn key_responses() {
    assert!(SetKeyResponse::success().succeeded());
    assert!(!SetKeyResponse::failure().succeeded());
    assert_eq!(
        GetKeyResponse::success(Some("v".to_string())),
        GetKeyResponse { success: true, value: Some("v".to_string()) }
    );
    assert_eq!(GetKeyResponse::failure(), GetKeyResponse { success: false, value: None });
}

fn set_of(ids: &[&str]) -> NodeSet {
    let mut s = NodeSet::new();
    for id in ids {
        s.insert(id.to_string());
    }
    s
}

#[test]
fn node_set_ignores_repeats() {
    let mut s = set_of(&["a", "b"]);
    assert!(!s.insert("a".to_string()));
    assert!(s.insert("c".to_string()));
    assert_eq!(s.len(), 3);
    assert!(s.contains(&"b".to_string()));
    assert!(!s.contains(&"z".to_string()));
    assert_eq!(s.get(2), "c");
    assert_eq!(s.duplicate().len(), 3);
}

#[test]
fn node_map_insert_replaces() {
    let mut m: NodeMap<u128> = NodeMap::new();
    m.insert("a".to_string(), 1);
    m.insert("b".to_string(), 2);
    m.insert("a".to_string(), 3);
    assert_eq!(m.len(), 2);
    assert_eq!(m.get(&"a".to_string()), Some(&3));
    assert_eq!(m.get(&"c".to_string()), None);
    let (k, v) = m.entry(1);
    assert_eq!((k.as_str(), *v), ("b", 2));
    m.insert_all(&set_of(&["b", "c"]), 9);
    assert_eq!(m.len(), 3);
    assert_eq!(m.get(&"a".to_string()), Some(&3));
    assert_eq!(m.get(&"b".to_string()), Some(&9));
    assert_eq!(m.get(&"c".to_string()), Some(&9));
}

#[test]
fn candidate_has_not_heard_from_any_peer() {
    let peers = set_of(&["1235", "1236"]);
    match Role::candidate(&peers) {
        Role::Candidate { votes_received } => {
            assert_eq!(votes_received.len(), 2);
            assert_eq!(votes_received.get(&"1235".to_string()), Some(&false));
            assert_eq!(votes_received.get(&"1236".to_string()), Some(&false));
        }
        other => panic!("not a candidate: {:?}", other),
    }
}
