use raft_node::config::Config;
use raft_node::message::{
    AppendEntriesRequest, MessageEnvelope, RequestVoteRequest, RequestVoteResponse, RpcMessage,
};
use raft_node::raft_node::RaftNode;
use raft_node::state::{Candidate, NodeSet, NodeState};
use raft_node::state_machine::MockStateMachine;
use raft_node::storage::MockStorage;
use raft_node::types::NodeId;

fn setup_node(id: NodeId, peers: Vec<NodeId>) -> RaftNode<MockStorage, MockStateMachine> {
    let config = Config::default()
        .with_heartbeat_interval(100)
        .with_election_timeout(500);
    let storage = MockStorage::new();
    let state_machine = MockStateMachine::new();
    let state_data = NodeState::Candidate(Candidate { votes_received: vec![id] });
    RaftNode::new(id, config, peers, state_data, storage, state_machine)
}

#[test]
fn test_candidate_sends_vote_requests() {
    let mut candidate = setup_node(NodeId(1), vec![NodeId(2), NodeId(3)]);
    candidate.current_term = 1;

    let (last_log_index, last_log_term) = candidate.get_last_log_info();

    let mut sent: Vec<MessageEnvelope> = Vec::new();
    for peer in &candidate.peers {
        let vote_request = RequestVoteRequest {
            term: candidate.current_term,
            candidate_id: candidate.id,
            last_log_index,
            last_log_term,
        };

        let envelope = MessageEnvelope {
            to: *peer,
            from: candidate.id,
            message: RpcMessage::RequestVote(vote_request),
        };

        sent.push(envelope);
    }

    let msg1 = sent.iter().find(|m| m.to == NodeId(2)).unwrap();
    let msg2 = sent.iter().find(|m| m.to == NodeId(3)).unwrap();

    match &msg1.message {
        RpcMessage::RequestVote(req) => {
            assert_eq!(req.term, 1);
            assert_eq!(req.candidate_id, NodeId(1));
        }
        _ => panic!("Expected RequestVote"),
    }

    match &msg2.message {
        RpcMessage::RequestVote(req) => {
            assert_eq!(req.term, 1);
            assert_eq!(req.candidate_id, NodeId(1));
        }
        _ => panic!("Expected RequestVote"),
    }
}

#[test]
fn test_candidate_wins_election_with_majority() {
    let mut candidate = setup_node(NodeId(1), vec![NodeId(2), NodeId(3)]);
    candidate.current_term = 1;

    let mut votes_received = NodeSet::new();
    votes_received.insert(NodeId(1));

    let response1 = RequestVoteResponse { term: 1, vote_granted: true };
    let response2 = RequestVoteResponse { term: 1, vote_granted: true };

    let envelope1 = MessageEnvelope {
        to: NodeId(1),
        from: NodeId(2),
        message: RpcMessage::RequestVoteResponse(response1),
    };

    let envelope2 = MessageEnvelope {
        to: NodeId(1),
        from: NodeId(3),
        message: RpcMessage::RequestVoteResponse(response2),
    };

    let majority = (candidate.peers.len() + 1) / 2 + 1;

    let (won1, _) = candidate.handle_candidate_message(envelope1, &mut votes_received, majority);
    assert!(!won1);

    let (won2, _) = candidate.handle_candidate_message(envelope2, &mut votes_received, majority);
    assert!(won2);
}

#[test]
fn test_candidate_steps_down_on_higher_term() {
    let mut candidate = setup_node(NodeId(1), vec![NodeId(2)]);
    candidate.current_term = 1;

    let mut votes_received = NodeSet::new();
    votes_received.insert(NodeId(1));

    let response = RequestVoteResponse { term: 2, vote_granted: false };

    let envelope = MessageEnvelope {
        to: NodeId(1),
        from: NodeId(2),
        message: RpcMessage::RequestVoteResponse(response),
    };

    let (_, stepped_down) = candidate.handle_candidate_message(envelope, &mut votes_received, 2);

    assert!(stepped_down);
    assert_eq!(candidate.current_term, 2);
    assert!(matches!(candidate.state_data, NodeState::Follower(_)));
}

#[test]
fn test_candidate_steps_down_on_leader_heartbeat() {
    let mut candidate = setup_node(NodeId(1), vec![NodeId(2)]);
    candidate.current_term = 1;

    let mut votes_received = NodeSet::new();
    votes_received.insert(NodeId(1));

    let append_req = AppendEntriesRequest {
        term: 2,
        leader_id: NodeId(2),
        prev_log_index: 0,
        prev_log_term: 0,
        entries: vec![],
        leader_commit: 0,
    };

    let envelope = MessageEnvelope {
        to: NodeId(1),
        from: NodeId(2),
        message: RpcMessage::AppendEntries(append_req),
    };

    let (_, stepped_down) = candidate.handle_candidate_message(envelope, &mut votes_received, 2);

    assert!(stepped_down);
    assert_eq!(candidate.current_term, 2);
    assert!(matches!(candidate.state_data, NodeState::Follower(_)));
}

#[test]
fn test_candidate_ignores_stale_vote_responses() {
    let mut candidate = setup_node(NodeId(1), vec![NodeId(2)]);
    candidate.current_term = 2;

    let mut votes_received = NodeSet::new();
    votes_received.insert(NodeId(1));

    let response = RequestVoteResponse { term: 1, vote_granted: true };

    let envelope = MessageEnvelope {
        to: NodeId(1),
        from: NodeId(2),
        message: RpcMessage::RequestVoteResponse(response),
    };

    let (won, stepped_down) = candidate.handle_candidate_message(envelope, &mut votes_received, 2);

    assert!(!won);
    assert!(!stepped_down);
    assert_eq!(candidate.current_term, 2);
}

#[test]
fn test_candidate_steps_down_on_higher_term_vote_request() {
    let mut candidate = setup_node(NodeId(1), vec![NodeId(2)]);
    candidate.current_term = 1;

    let mut votes_received = NodeSet::new();
    votes_received.insert(NodeId(1));

    let vote_req = RequestVoteRequest {
        term: 2,
        candidate_id: NodeId(3),
        last_log_index: 0,
        last_log_term: 0,
    };

    let envelope = MessageEnvelope {
        to: NodeId(1),
        from: NodeId(3),
        message: RpcMessage::RequestVote(vote_req),
    };

    let (_, stepped_down) = candidate.handle_candidate_message(envelope, &mut votes_received, 2);

    assert!(stepped_down);
    assert_eq!(candidate.current_term, 2);
    assert!(matches!(candidate.state_data, NodeState::Follower(_)));
}

#[test]
fn test_candidate_increments_term_on_election_start() {
    let mut candidate = setup_node(NodeId(1), vec![NodeId(2)]);
    let initial_term = candidate.current_term;

    candidate.current_term += 1;

    assert_eq!(candidate.current_term, initial_term + 1);
}

#[test]
fn test_candidate_votes_for_self() {
    let candidate = setup_node(NodeId(1), vec![NodeId(2), NodeId(3)]);

    if let NodeState::Candidate(ref candidate_state) = candidate.state_data {
        assert!(candidate_state.votes_received.contains(&NodeId(1)));
    } else {
        panic!("Should be candidate");
    }
}

#[test]
fn test_candidate_becomes_follower_on_timeout() {
    let mut candidate = setup_node(NodeId(1), vec![NodeId(2)]);
    candidate.config.election_timeout = 50;

    assert!(candidate.config.election_timeout < 100);
}

#[test]
fn test_candidate_handles_split_vote() {
    let mut candidate1 = setup_node(NodeId(1), vec![NodeId(2), NodeId(3)]);
    candidate1.current_term = 1;

    let mut votes_received = NodeSet::new();
    votes_received.insert(NodeId(1));

    let response = RequestVoteResponse { term: 1, vote_granted: true };

    let envelope = MessageEnvelope {
        to: NodeId(1),
        from: NodeId(2),
        message: RpcMessage::RequestVoteResponse(response),
    };

    let majority = (candidate1.peers.len() + 1) / 2 + 1;
    let (_won, _) = candidate1.handle_candidate_message(envelope, &mut votes_received, majority);

    assert_eq!(votes_received.len(), 2);
}
