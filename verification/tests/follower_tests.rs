use raft_node::config::Config;
use raft_node::message::{AppendEntriesRequest, RequestVoteRequest};
use raft_node::raft_node::RaftNode;
use raft_node::state::{Follower, NodeState};
use raft_node::state_machine::MockStateMachine;
use raft_node::storage::MockStorage;
use raft_node::types::{LogEntry, NodeId};

fn create_log_entry(term: u64, index: u64, cmd: &[u8]) -> LogEntry {
    LogEntry { term, index, cmd: cmd.to_vec() }
}

fn setup_node(id: NodeId, peers: Vec<NodeId>) -> RaftNode<MockStorage, MockStateMachine> {
    let config = Config::default()
        .with_heartbeat_interval(100)
        .with_election_timeout(500);
    let storage = MockStorage::new();
    let state_machine = MockStateMachine::new();
    let state_data = NodeState::Follower(Follower { voted_for: None });
    RaftNode::new(id, config, peers, state_data, storage, state_machine)
}

#[test]
fn test_follower_accepts_heartbeat() {
    let mut follower = setup_node(NodeId(2), vec![NodeId(1)]);
    follower.current_term = 1;

    let heartbeat = AppendEntriesRequest {
        term: 1,
        leader_id: NodeId(1),
        prev_log_index: 0,
        prev_log_term: 0,
        entries: vec![],
        leader_commit: 0,
    };

    let response = follower.handle_append_entries(&heartbeat);

    assert!(response.success);
    assert_eq!(response.term, 1);
    assert_eq!(response.match_index, 0);
}

#[test]
fn test_follower_rejects_lower_term() {
    let mut follower = setup_node(NodeId(2), vec![NodeId(1)]);
    follower.current_term = 2;

    let heartbeat = AppendEntriesRequest {
        term: 1,
        leader_id: NodeId(1),
        prev_log_index: 0,
        prev_log_term: 0,
        entries: vec![],
        leader_commit: 0,
    };

    let response = follower.handle_append_entries(&heartbeat);

    assert!(!response.success);
    assert_eq!(response.term, 2);
}

#[test]
fn test_follower_updates_term_on_higher_term() {
    let mut follower = setup_node(NodeId(2), vec![NodeId(1)]);
    follower.current_term = 1;

    let heartbeat = AppendEntriesRequest {
        term: 2,
        leader_id: NodeId(1),
        prev_log_index: 0,
        prev_log_term: 0,
        entries: vec![],
        leader_commit: 0,
    };

    let response = follower.handle_append_entries(&heartbeat);

    assert!(response.success);
    assert_eq!(follower.current_term, 2);
}

#[test]
fn test_follower_appends_entries() {
    let mut follower = setup_node(NodeId(2), vec![NodeId(1)]);
    follower.current_term = 1;

    let entry1 = create_log_entry(1, 1, b"cmd1");
    let entry2 = create_log_entry(1, 2, b"cmd2");

    let append_req = AppendEntriesRequest {
        term: 1,
        leader_id: NodeId(1),
        prev_log_index: 0,
        prev_log_term: 0,
        entries: vec![entry1.clone(), entry2.clone()],
        leader_commit: 0,
    };

    let response = follower.handle_append_entries(&append_req);

    assert!(response.success);
    assert_eq!(follower.logs.len(), 2);
    assert_eq!(follower.logs[0].index, 1);
    assert_eq!(follower.logs[1].index, 2);
}

#[test]
fn test_follower_rejects_inconsistent_log() {
    let mut follower = setup_node(NodeId(2), vec![NodeId(1)]);
    follower.current_term = 1;

    follower.logs.push(create_log_entry(1, 1, b"cmd1"));

    let append_req = AppendEntriesRequest {
        term: 1,
        leader_id: NodeId(1),
        prev_log_index: 1,
        prev_log_term: 2,
        entries: vec![create_log_entry(1, 2, b"cmd2")],
        leader_commit: 0,
    };

    let response = follower.handle_append_entries(&append_req);

    assert!(!response.success);
    assert!(response.conflict_index.is_some());
}

#[test]
fn test_follower_truncates_conflicting_entries() {
    let mut follower = setup_node(NodeId(2), vec![NodeId(1)]);
    follower.current_term = 1;

    follower.logs.push(create_log_entry(1, 1, b"cmd1"));
    follower.logs.push(create_log_entry(1, 2, b"cmd2"));
    follower.logs.push(create_log_entry(1, 3, b"cmd3"));

    let new_entry = create_log_entry(1, 2, b"new_cmd2");
    let append_req = AppendEntriesRequest {
        term: 1,
        leader_id: NodeId(1),
        prev_log_index: 1,
        prev_log_term: 1,
        entries: vec![new_entry.clone()],
        leader_commit: 0,
    };

    let response = follower.handle_append_entries(&append_req);

    assert!(response.success);
    assert_eq!(follower.logs.len(), 2);
    assert_eq!(follower.logs[0].index, 1);
    assert_eq!(follower.logs[1].index, 2);
}

#[test]
fn test_follower_updates_commit_index() {
    let mut follower = setup_node(NodeId(2), vec![NodeId(1)]);
    follower.current_term = 1;

    follower.logs.push(create_log_entry(1, 1, b"cmd1"));
    follower.logs.push(create_log_entry(1, 2, b"cmd2"));

    let append_req = AppendEntriesRequest {
        term: 1,
        leader_id: NodeId(1),
        prev_log_index: 2,
        prev_log_term: 1,
        entries: vec![],
        leader_commit: 2,
    };

    let response = follower.handle_append_entries(&append_req);

    assert!(response.success);
    assert_eq!(follower.commit_idx, 2);
}

#[test]
fn test_follower_grants_vote() {
    let mut follower = setup_node(NodeId(2), vec![NodeId(1)]);
    follower.current_term = 1;

    let vote_req = RequestVoteRequest {
        term: 2,
        candidate_id: NodeId(3),
        last_log_index: 0,
        last_log_term: 0,
    };

    let response = follower.handle_request_vote(&vote_req);

    assert!(response.vote_granted);
    assert_eq!(response.term, 2);
    assert_eq!(follower.current_term, 2);
}

#[test]
fn test_follower_rejects_vote_same_term_already_voted() {
    let mut follower = setup_node(NodeId(2), vec![NodeId(1)]);
    follower.current_term = 1;

    let vote_req1 = RequestVoteRequest {
        term: 1,
        candidate_id: NodeId(3),
        last_log_index: 0,
        last_log_term: 0,
    };
    let _ = follower.handle_request_vote(&vote_req1);

    let vote_req2 = RequestVoteRequest {
        term: 1,
        candidate_id: NodeId(4),
        last_log_index: 0,
        last_log_term: 0,
    };
    let response = follower.handle_request_vote(&vote_req2);

    assert!(!response.vote_granted);
}

#[test]
fn test_follower_rejects_vote_stale_log() {
    let mut follower = setup_node(NodeId(2), vec![NodeId(1)]);
    follower.current_term = 1;

    follower.logs.push(create_log_entry(1, 1, b"cmd1"));
    follower.logs.push(create_log_entry(1, 2, b"cmd2"));

    let vote_req = RequestVoteRequest {
        term: 2,
        candidate_id: NodeId(3),
        last_log_index: 0,
        last_log_term: 0,
    };

    let response = follower.handle_request_vote(&vote_req);

    assert!(!response.vote_granted);
}

#[test]
fn test_follower_becomes_candidate_on_timeout() {
    let mut follower = setup_node(NodeId(2), vec![NodeId(1)]);
    follower.current_term = 1;

    follower.config.election_timeout = 50;

    assert!(follower.config.election_timeout < 100);
}

#[test]
fn test_follower_resets_timeout_on_heartbeat() {
    let mut follower = setup_node(NodeId(2), vec![NodeId(1)]);
    follower.current_term = 1;

    let heartbeat = AppendEntriesRequest {
        term: 1,
        leader_id: NodeId(1),
        prev_log_index: 0,
        prev_log_term: 0,
        entries: vec![],
        leader_commit: 0,
    };

    let _ = follower.handle_append_entries(&heartbeat);

    assert!(matches!(follower.state_data, NodeState::Follower(_)));
}

#[test]
fn test_follower_finds_conflict_correctly() {
    let mut follower = setup_node(NodeId(2), vec![NodeId(1)]);
    follower.current_term = 1;

    follower.logs.push(create_log_entry(1, 1, b"cmd1"));
    follower.logs.push(create_log_entry(1, 2, b"cmd2"));
    follower.logs.push(create_log_entry(2, 3, b"cmd3"));

    let append_req = AppendEntriesRequest {
        term: 1,
        leader_id: NodeId(1),
        prev_log_index: 2,
        prev_log_term: 1,
        entries: vec![create_log_entry(1, 3, b"new_cmd3")],
        leader_commit: 0,
    };

    let response = follower.handle_append_entries(&append_req);

    assert!(response.success);
    assert_eq!(follower.logs.len(), 3);
    assert_eq!(follower.logs[2].term, 1);
}
