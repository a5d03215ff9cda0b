//! What a node does while it stands for election.

use vstd::prelude::*;
use crate::types::NodeId;
use crate::message::{MessageEnvelope, RpcMessage, RequestVoteRequest};
use crate::state::{NodeState, NodeSet, Follower, Candidate, Leader};
use crate::storage::{Storage, VotingState};
use crate::state_machine::StateMachine;
use super::RaftNode;
use super::model::last_log_info;

verus! {

impl<S, SM> RaftNode<S, SM> where S: Storage, SM: StateMachine {
    /// Handles a message while standing for election and returns whether the
    /// election is won and whether the node stepped down. A granted vote of
    /// the current term is counted, and the election is won once the votes
    /// received outnumber `majority`; a message of a higher term (or an
    /// append request of the same term) makes the node a follower of that
    /// term.
    pub fn handle_candidate_message(
        &mut self,
        rpc_req: MessageEnvelope,
        votes_received: &mut NodeSet,
        majority: usize,
    ) -> (r: (bool, bool))
        ensures
            match rpc_req.message {
                RpcMessage::RequestVoteResponse(resp) => if resp.term > old(self).current_term {
                    &&& r == (false, true)
                    &&& Self::stepped_down(*old(self), *final(self), resp.term, None)
                    &&& final(votes_received)@ == old(votes_received)@
                } else if resp.term == old(self).current_term && resp.vote_granted {
                    &&& final(votes_received)@ == old(votes_received)@.insert(rpc_req.from)
                    &&& r == (final(votes_received)@.len() > majority, false)
                    &&& *final(self) == *old(self)
                } else {
                    &&& r == (false, false)
                    &&& *final(self) == *old(self)
                    &&& final(votes_received)@ == old(votes_received)@
                },
                RpcMessage::AppendEntries(req) => if req.term >= old(self).current_term {
                    &&& r == (false, true)
                    &&& Self::stepped_down(*old(self), *final(self), req.term, None)
                    &&& final(votes_received)@ == old(votes_received)@
                } else {
                    &&& r == (false, false)
                    &&& *final(self) == *old(self)
                    &&& final(votes_received)@ == old(votes_received)@
                },
                RpcMessage::RequestVote(vote_req) => if vote_req.term > old(self).current_term {
                    &&& r == (false, true)
                    &&& Self::stepped_down(*old(self), *final(self), vote_req.term, None)
                    &&& final(votes_received)@ == old(votes_received)@
                } else {
                    &&& r == (false, false)
                    &&& *final(self) == *old(self)
                    &&& final(votes_received)@ == old(votes_received)@
                },
                _ => {
                    &&& r == (false, false)
                    &&& *final(self) == *old(self)
                    &&& final(votes_received)@ == old(votes_received)@
                },
            },
    {
        let from = rpc_req.from;
        match rpc_req.message {
            RpcMessage::RequestVoteResponse(resp) => {
                if resp.term > self.current_term {
                    self.current_term = resp.term;
                    self.state_data = NodeState::Follower(Follower { voted_for: None });
                    return (false, true);
                }
                if resp.term < self.current_term {
                    return (false, false);
                }
                if resp.vote_granted {
                    votes_received.insert(from);
                    if votes_received.len() > majority {
                        return (true, false);
                    }
                }
                (false, false)
            },
            RpcMessage::AppendEntries(req) => {
                if req.term >= self.current_term {
                    self.current_term = req.term;
                    self.state_data = NodeState::Follower(Follower { voted_for: None });
                    return (false, true);
                }
                (false, false)
            },
            RpcMessage::RequestVote(vote_req) => {
                if vote_req.term > self.current_term {
                    self.current_term = vote_req.term;
                    self.state_data = NodeState::Follower(Follower { voted_for: None });
                    return (false, true);
                }
                (false, false)
            },
            _ => (false, false),
        }
    }

    /// Opens an election: moves to the next term, records a vote for itself
    /// and returns a vote request for each peer.
    pub fn begin_election(&mut self) -> (r: Vec<MessageEnvelope>)
        requires
            old(self).current_term < u64::MAX,
        ensures
            final(self).current_term == old(self).current_term + 1,
            final(self).storage.stored_voting_state() == (VotingState {
                current_term: final(self).current_term,
                voted_for: Some(old(self).id.0 as u64),
            }),
            final(self).storage.stored_commit_idx() == old(self).storage.stored_commit_idx(),
            final(self).storage.stored_last_applied_idx() == old(
                self,
            ).storage.stored_last_applied_idx(),
            final(self).storage.stored_log() == old(self).storage.stored_log(),
            final(self).state_data == old(self).state_data,
            final(self).state_machine == old(self).state_machine,
            final(self).logs == old(self).logs,
            final(self).commit_idx == old(self).commit_idx,
            final(self).last_applied_idx == old(self).last_applied_idx,
            final(self).last_snapshot_idx == old(self).last_snapshot_idx,
            final(self).id == old(self).id,
            final(self).config == old(self).config,
            final(self).peers == old(self).peers,
            r@.len() == old(self).peers@.len(),
            forall|i: int|
                0 <= i < r@.len() ==> #[trigger] r@[i] == (MessageEnvelope {
                    to: old(self).peers@[i],
                    from: old(self).id,
                    message: RpcMessage::RequestVote(
                        RequestVoteRequest {
                            term: final(self).current_term,
                            candidate_id: old(self).id,
                            last_log_index: last_log_info(old(self).log_view()).0,
                            last_log_term: last_log_info(old(self).log_view()).1,
                        },
                    ),
                }),
    {
        self.current_term = self.current_term + 1;
        let voting_state = VotingState {
            current_term: self.current_term,
            voted_for: Some(self.id.0 as u64),
        };
        self.storage.persist_voting_state(&voting_state);
        let (last_log_index, last_log_term) = self.get_last_log_info();
        let mut requests: Vec<MessageEnvelope> = Vec::new();
        let n = self.peers.len();
        for i in 0..n
            invariant
                n == self.peers@.len(),
                requests@.len() == i,
                forall|j: int|
                    0 <= j < i ==> #[trigger] requests@[j] == (MessageEnvelope {
                        to: self.peers@[j],
                        from: self.id,
                        message: RpcMessage::RequestVote(
                            RequestVoteRequest {
                                term: self.current_term,
                                candidate_id: self.id,
                                last_log_index,
                                last_log_term,
                            },
                        ),
                    }),
        {
            let vote_request = RequestVoteRequest {
                term: self.current_term,
                candidate_id: self.id,
                last_log_index,
                last_log_term,
            };
            requests.push(
                MessageEnvelope {
                    to: self.peers[i],
                    from: self.id,
                    message: RpcMessage::RequestVote(vote_request),
                },
            );
        }
        requests
    }

    /// The election timer of a follower ran out: it moves to the next term
    /// and stands for election with its own vote.
    pub fn on_follower_election_timeout(&mut self)
        requires
            old(self).current_term < u64::MAX,
        ensures
            Self::same_but_role(*old(self), *final(self)),
            final(self).current_term == old(self).current_term + 1,
            final(self).state_data is Candidate,
            final(self).state_data->Candidate_0.votes_received@ == seq![old(self).id],
    {
        self.current_term = self.current_term + 1;
        let mut votes_received: Vec<NodeId> = Vec::new();
        votes_received.push(self.id);
        self.state_data = NodeState::Candidate(Candidate { votes_received });
    }

    /// The election timer of a candidate ran out: it becomes a follower
    /// without a vote.
    pub fn on_candidate_election_timeout(&mut self)
        ensures
            Self::stepped_down(*old(self), *final(self), old(self).current_term, None),
    {
        self.state_data = NodeState::Follower(Follower { voted_for: None });
    }

    /// The election is won: the node leads, sending from index 1 to every
    /// peer.
    pub fn become_leader(&mut self)
        ensures
            Self::same_but_role(*old(self), *final(self)),
            final(self).current_term == old(self).current_term,
            final(self).state_data is Leader,
            final(self).state_data->Leader_0.next_index@ == Map::new(
                |k: NodeId| old(self).peers@.contains(k),
                |k: NodeId| 1u64,
            ),
            final(self).state_data->Leader_0.match_index@ == Map::new(
                |k: NodeId| old(self).peers@.contains(k),
                |k: NodeId| 0u64,
            ),
    {
        self.state_data = NodeState::Leader(Leader::new(self.peers.clone()));
    }
}

} // verus!
