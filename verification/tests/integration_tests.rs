use raft_node::config::Config;
use raft_node::message::{
    AppendEntriesRequest, MessageEnvelope, RequestVoteRequest, RequestVoteResponse, RpcMessage,
};
use raft_node::raft_node::RaftNode;
use raft_node::state::{Candidate, Follower, Leader, NodeSet, NodeState};
use raft_node::state_machine::MockStateMachine;
use raft_node::storage::MockStorage;
use raft_node::types::{LogEntry, NodeId};

fn create_log_entry(term: u64, index: u64, cmd: &[u8]) -> LogEntry {
    LogEntry { term, index, cmd: cmd.to_vec() }
}

fn create_node(
    id: NodeId,
    peers: Vec<NodeId>,
    term: u64,
    state: NodeState,
) -> RaftNode<MockStorage, MockStateMachine> {
    let config = Config::default()
        .with_heartbeat_interval(100)
        .with_election_timeout(500);
    let storage = MockStorage::new();
    let state_machine = MockStateMachine::new();
    let mut node = RaftNode::new(id, config, peers, state, storage, state_machine);
    node.current_term = term;
    node
}

fn message_to(msgs: &[MessageEnvelope], to: NodeId) -> &MessageEnvelope {
    msgs.iter().find(|m| m.to == to).expect("no message for that node")
}

#[test]
fn test_split_brain_scenario() {
    let mut leader1 = create_node(
        NodeId(1),
        vec![NodeId(2), NodeId(3)],
        1,
        NodeState::Leader(Leader::new(vec![NodeId(2), NodeId(3)])),
    );

    let _leader2 = create_node(
        NodeId(2),
        vec![NodeId(1), NodeId(3)],
        2,
        NodeState::Leader(Leader::new(vec![NodeId(1), NodeId(3)])),
    );

    let append_req = AppendEntriesRequest {
        term: 2,
        leader_id: NodeId(2),
        prev_log_index: 0,
        prev_log_term: 0,
        entries: vec![],
        leader_commit: 0,
    };

    let envelope = MessageEnvelope {
        to: NodeId(1),
        from: NodeId(2),
        message: RpcMessage::AppendEntries(append_req),
    };

    let (should_step_down, _) = leader1.handle_leader_message(envelope);

    assert!(should_step_down);
    assert_eq!(leader1.current_term, 2);
    assert!(matches!(leader1.state_data, NodeState::Follower(_)));
}

#[test]
fn test_election_scenario() {
    let mut follower = create_node(
        NodeId(1),
        vec![NodeId(2), NodeId(3)],
        1,
        NodeState::Follower(Follower { voted_for: None }),
    );

    follower.current_term += 1;
    follower.state_data = NodeState::Candidate(Candidate { votes_received: vec![NodeId(1)] });

    let (last_log_index, last_log_term) = follower.get_last_log_info();
    let mut sent: Vec<MessageEnvelope> = Vec::new();
    for peer in &follower.peers {
        let vote_req = RequestVoteRequest {
            term: follower.current_term,
            candidate_id: follower.id,
            last_log_index,
            last_log_term,
        };

        let envelope = MessageEnvelope {
            to: *peer,
            from: follower.id,
            message: RpcMessage::RequestVote(vote_req),
        };

        sent.push(envelope);
    }

    let msg = message_to(&sent, NodeId(2));

    match &msg.message {
        RpcMessage::RequestVote(req) => {
            assert_eq!(req.term, 2);
            assert_eq!(req.candidate_id, NodeId(1));
        }
        _ => panic!("Expected RequestVote"),
    }
}

#[test]
fn test_leader_timeout_follower_becomes_candidate() {
    let mut follower = create_node(
        NodeId(2),
        vec![NodeId(1)],
        1,
        NodeState::Follower(Follower { voted_for: None }),
    );

    follower.config.election_timeout = 50;

    assert!(follower.config.election_timeout < 100);
}

#[test]
fn test_log_replication_scenario() {
    let mut leader = create_node(
        NodeId(1),
        vec![NodeId(2), NodeId(3)],
        1,
        NodeState::Leader(Leader::new(vec![NodeId(2), NodeId(3)])),
    );

    leader.logs.push(create_log_entry(1, 1, b"cmd1"));
    leader.logs.push(create_log_entry(1, 2, b"cmd2"));

    if let NodeState::Leader(ref mut leader_state) = leader.state_data {
        leader_state.next_index.insert(NodeId(2), 1);
        leader_state.next_index.insert(NodeId(3), 1);
    }

    let sent = leader.send_leader_heartbeat();

    let msg1 = message_to(&sent, NodeId(2));
    let msg2 = message_to(&sent, NodeId(3));

    match &msg1.message {
        RpcMessage::AppendEntries(req) => {
            assert_eq!(req.entries.len(), 2);
            assert_eq!(req.term, 1);
        }
        _ => panic!("Expected AppendEntries"),
    }

    match &msg2.message {
        RpcMessage::AppendEntries(req) => {
            assert_eq!(req.entries.len(), 2);
        }
        _ => panic!("Expected AppendEntries"),
    }
}

#[test]
fn test_conflict_resolution_scenario() {
    let mut follower = create_node(
        NodeId(2),
        vec![NodeId(1)],
        1,
        NodeState::Follower(Follower { voted_for: None }),
    );

    follower.logs.push(create_log_entry(1, 1, b"old_cmd"));

    let mut leader = create_node(
        NodeId(1),
        vec![NodeId(2)],
        1,
        NodeState::Leader(Leader::new(vec![NodeId(2)])),
    );

    leader.logs.push(create_log_entry(1, 1, b"new_cmd"));

    if let NodeState::Leader(ref mut leader_state) = leader.state_data {
        leader_state.next_index.insert(NodeId(2), 2);
    }

    let sent = leader.send_leader_heartbeat();
    let msg = message_to(&sent, NodeId(2));

    match &msg.message {
        RpcMessage::AppendEntries(req) => {
            assert_eq!(req.prev_log_index, 0);
            assert_eq!(req.entries.len(), 1);
        }
        _ => panic!("Expected AppendEntries"),
    }
}

#[test]
fn test_commit_propagation_scenario() {
    let mut leader = create_node(
        NodeId(1),
        vec![NodeId(2), NodeId(3)],
        1,
        NodeState::Leader(Leader::new(vec![NodeId(2), NodeId(3)])),
    );

    leader.logs.push(create_log_entry(1, 1, b"cmd1"));

    if let NodeState::Leader(ref mut leader_state) = leader.state_data {
        leader_state.match_index.insert(NodeId(2), 1);
        leader_state.match_index.insert(NodeId(3), 1);
    }

    leader.update_commit_index();

    assert_eq!(leader.commit_idx, 1);
}

#[test]
fn test_multiple_candidates_split_vote() {
    let mut candidate1 = create_node(
        NodeId(1),
        vec![NodeId(2), NodeId(3), NodeId(4)],
        1,
        NodeState::Candidate(Candidate { votes_received: vec![NodeId(1)] }),
    );

    let mut votes_received = NodeSet::new();
    votes_received.insert(NodeId(1));

    let response = RequestVoteResponse { term: 1, vote_granted: true };

    let envelope = MessageEnvelope {
        to: NodeId(1),
        from: NodeId(2),
        message: RpcMessage::RequestVoteResponse(response),
    };

    let majority = (candidate1.peers.len() + 1) / 2 + 1;
    let (won, _) = candidate1.handle_candidate_message(envelope, &mut votes_received, majority);

    assert!(!won);
    assert_eq!(votes_received.len(), 2);
}
