use raft_node::config::Config;
use raft_node::message::{
    AppendEntriesRequest, AppendEntriesResponse, MessageEnvelope, RequestVoteRequest, RpcMessage,
};
use raft_node::raft_node::RaftNode;
use raft_node::state::{Leader, NodeState};
use raft_node::state_machine::MockStateMachine;
use raft_node::storage::MockStorage;
use raft_node::types::{LogEntry, NodeId};

fn create_log_entry(term: u64, index: u64, cmd: &[u8]) -> LogEntry {
    LogEntry { term, index, cmd: cmd.to_vec() }
}

fn setup_node(id: NodeId, peers: Vec<NodeId>) -> RaftNode<MockStorage, MockStateMachine> {
    let config = Config::default()
        .with_heartbeat_interval(100)
        .with_election_timeout(500);
    let storage = MockStorage::new();
    let state_machine = MockStateMachine::new();
    let leader_state = Leader::new(peers.clone());
    let state_data = NodeState::Leader(leader_state);
    RaftNode::new(id, config, peers, state_data, storage, state_machine)
}

fn message_to(msgs: &[MessageEnvelope], to: NodeId) -> &MessageEnvelope {
    msgs.iter().find(|m| m.to == to).expect("no message for that node")
}

#[test]
fn test_leader_sends_heartbeat() {
    let mut leader = setup_node(NodeId(1), vec![NodeId(2), NodeId(3)]);
    leader.current_term = 1;

    let sent = leader.send_leader_heartbeat();

    let msg1 = message_to(&sent, NodeId(2));
    let msg2 = message_to(&sent, NodeId(3));

    match &msg1.message {
        RpcMessage::AppendEntries(req) => {
            assert_eq!(req.term, 1);
            assert_eq!(req.leader_id, NodeId(1));
            assert_eq!(req.entries.len(), 0);
        }
        _ => panic!("Expected AppendEntries"),
    }

    match &msg2.message {
        RpcMessage::AppendEntries(req) => {
            assert_eq!(req.term, 1);
            assert_eq!(req.leader_id, NodeId(1));
        }
        _ => panic!("Expected AppendEntries"),
    }
}

#[test]
fn test_leader_sends_log_entries() {
    let mut leader = setup_node(NodeId(1), vec![NodeId(2)]);
    leader.current_term = 1;

    leader.logs.push(create_log_entry(1, 1, b"cmd1"));
    leader.logs.push(create_log_entry(1, 2, b"cmd2"));

    if let NodeState::Leader(ref mut leader_state) = leader.state_data {
        leader_state.next_index.insert(NodeId(2), 1);
    }

    let sent = leader.send_leader_heartbeat();
    let msg = message_to(&sent, NodeId(2));

    match &msg.message {
        RpcMessage::AppendEntries(req) => {
            assert_eq!(req.entries.len(), 2);
            assert_eq!(req.prev_log_index, 0);
            assert_eq!(req.prev_log_term, 0);
        }
        _ => panic!("Expected AppendEntries with entries"),
    }
}

#[test]
fn test_leader_handles_append_entries_response_success() {
    let mut leader = setup_node(NodeId(1), vec![NodeId(2)]);
    leader.current_term = 1;

    if let NodeState::Leader(ref mut leader_state) = leader.state_data {
        leader_state.next_index.insert(NodeId(2), 1);
        leader_state.match_index.insert(NodeId(2), 0);
    }

    leader.logs.push(create_log_entry(1, 1, b"cmd1"));

    let response = AppendEntriesResponse {
        term: 1,
        success: true,
        match_index: 1,
        conflict_index: None,
        conflict_term: None,
    };

    leader.handle_append_entries_response(NodeId(2), &response);

    if let NodeState::Leader(ref leader_state) = leader.state_data {
        assert_eq!(leader_state.match_index.get(&NodeId(2)), Some(1));
        assert_eq!(leader_state.next_index.get(&NodeId(2)), Some(2));
    }
}

#[test]
fn test_leader_handles_append_entries_response_failure() {
    let mut leader = setup_node(NodeId(1), vec![NodeId(2)]);
    leader.current_term = 1;

    leader.logs.push(create_log_entry(1, 1, b"cmd1"));
    leader.logs.push(create_log_entry(1, 2, b"cmd2"));

    if let NodeState::Leader(ref mut leader_state) = leader.state_data {
        leader_state.next_index.insert(NodeId(2), 3);
    }

    let response = AppendEntriesResponse {
        term: 1,
        success: false,
        match_index: 0,
        conflict_index: Some(1),
        conflict_term: Some(0),
    };

    leader.handle_append_entries_response(NodeId(2), &response);

    if let NodeState::Leader(ref leader_state) = leader.state_data {
        let next_idx = leader_state.next_index.get(&NodeId(2)).unwrap();
        assert!(next_idx < 3);
    }
}

#[test]
fn test_leader_steps_down_on_higher_term() {
    let mut leader = setup_node(NodeId(1), vec![NodeId(2)]);
    leader.current_term = 1;

    let response = AppendEntriesResponse {
        term: 2,
        success: false,
        match_index: 0,
        conflict_index: None,
        conflict_term: None,
    };

    leader.handle_append_entries_response(NodeId(2), &response);

    assert_eq!(leader.current_term, 2);
    assert!(matches!(leader.state_data, NodeState::Follower(_)));
}

#[test]
fn test_leader_handles_request_vote_rejects_lower_term() {
    let mut leader = setup_node(NodeId(1), vec![NodeId(2)]);
    leader.current_term = 2;

    let vote_req = RequestVoteRequest {
        term: 1,
        candidate_id: NodeId(3),
        last_log_index: 0,
        last_log_term: 0,
    };

    let (_, response) = leader.handle_request_vote_as_leader(NodeId(3), &vote_req);

    assert_eq!(response.to, NodeId(3));
    match response.message {
        RpcMessage::RequestVoteResponse(resp) => {
            assert_eq!(resp.term, 2);
            assert_eq!(resp.vote_granted, false);
        }
        _ => panic!("Expected RequestVoteResponse"),
    }
}

#[test]
fn test_leader_steps_down_on_higher_term_vote_request() {
    let mut leader = setup_node(NodeId(1), vec![NodeId(2)]);
    leader.current_term = 1;

    let vote_req = RequestVoteRequest {
        term: 2,
        candidate_id: NodeId(3),
        last_log_index: 0,
        last_log_term: 0,
    };

    leader.handle_request_vote_as_leader(NodeId(3), &vote_req);

    assert_eq!(leader.current_term, 2);
    assert!(matches!(leader.state_data, NodeState::Follower(_)));
}

#[test]
fn test_leader_handles_split_brain() {
    let mut leader = setup_node(NodeId(1), vec![NodeId(2)]);
    leader.current_term = 1;

    let split_brain_request = AppendEntriesRequest {
        term: 2,
        leader_id: NodeId(3),
        prev_log_index: 0,
        prev_log_term: 0,
        entries: vec![],
        leader_commit: 0,
    };

    let envelope = MessageEnvelope {
        to: NodeId(1),
        from: NodeId(3),
        message: RpcMessage::AppendEntries(split_brain_request),
    };

    let (should_step_down, _) = leader.handle_leader_message(envelope);

    assert!(should_step_down);
    assert_eq!(leader.current_term, 2);
    assert!(matches!(leader.state_data, NodeState::Follower(_)));
}

#[test]
fn test_leader_updates_commit_index() {
    let mut leader = setup_node(NodeId(1), vec![NodeId(2), NodeId(3)]);
    leader.current_term = 1;

    leader.logs.push(create_log_entry(1, 1, b"cmd1"));
    leader.logs.push(create_log_entry(1, 2, b"cmd2"));

    if let NodeState::Leader(ref mut leader_state) = leader.state_data {
        leader_state.match_index.insert(NodeId(2), 2);
        leader_state.match_index.insert(NodeId(3), 2);
    }

    leader.update_commit_index();

    assert_eq!(leader.commit_idx, 2);
}

#[test]
fn test_leader_only_commits_current_term_entries() {
    let mut leader = setup_node(NodeId(1), vec![NodeId(2), NodeId(3)]);
    leader.current_term = 2;

    leader.logs.push(create_log_entry(1, 1, b"cmd1"));
    leader.logs.push(create_log_entry(2, 2, b"cmd2"));

    if let NodeState::Leader(ref mut leader_state) = leader.state_data {
        leader_state.match_index.insert(NodeId(2), 2);
        leader_state.match_index.insert(NodeId(3), 2);
    }

    leader.update_commit_index();

    assert_eq!(leader.commit_idx, 2);
}

#[test]
fn test_leader_conflict_resolution_with_conflict_info() {
    let mut leader = setup_node(NodeId(1), vec![NodeId(2)]);
    leader.current_term = 1;

    leader.logs.push(create_log_entry(1, 1, b"cmd1"));
    leader.logs.push(create_log_entry(1, 2, b"cmd2"));
    leader.logs.push(create_log_entry(1, 3, b"cmd3"));

    if let NodeState::Leader(ref mut leader_state) = leader.state_data {
        leader_state.next_index.insert(NodeId(2), 4);
    }

    let response = AppendEntriesResponse {
        term: 1,
        success: false,
        match_index: 0,
        conflict_index: Some(1),
        conflict_term: Some(0),
    };

    leader.handle_append_entries_response(NodeId(2), &response);

    if let NodeState::Leader(ref leader_state) = leader.state_data {
        let next_idx = leader_state.next_index.get(&NodeId(2)).unwrap();
        assert_eq!(next_idx, 1);
    }
}
