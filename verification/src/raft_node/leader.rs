//! What a node does while it leads: replication, follower progress and the
//! commit index.

use vstd::prelude::*;
use crate::types::{NodeId, LogEntryView, clone_log_from};
use crate::message::{
    MessageEnvelope, RpcMessage, AppendEntriesRequest, AppendEntriesResponse, RequestVoteRequest,
    RequestVoteResponse,
};
use crate::state::{NodeState, Follower, Leader};
use crate::storage::{Storage, VotingState};
use crate::state_machine::StateMachine;
use super::RaftNode;
use super::model::{
    majority_of, kth_largest, apply_outcome, last_below_term,
    next_index_after_conflict, next_index_after_rejection,
};
use super::commit::kth_largest_value;

verus! {

/// The indices a leader's commit decision ranges over: what each peer is
/// known to hold, and its own log length.
pub open spec fn replicated_indices(leader: Leader, log_len: nat) -> Seq<u64> {
    leader.match_index.values_view().push(log_len as u64)
}

/// The next index a leader sends from to `peer`: the recorded one, or just
/// past the end of its log.
pub open spec fn next_index_for(leader: Leader, peer: NodeId, log_len: nat) -> int {
    if leader.next_index@.dom().contains(peer) {
        leader.next_index@[peer] as int
    } else {
        log_len + 1int
    }
}

/// The position from which a leader sends its log to a peer whose next
/// index is `next`: that index while it lies within the log, and the start
/// of the log when the next index is past its end.
pub open spec fn send_start(next: int, log_len: nat) -> int {
    if next <= log_len {
        next
    } else {
        1
    }
}

/// `req` is the append request a leader of term `term` with log `log` and
/// commit index `commit` sends to a peer whose next index is `next`: the
/// entries from `send_start(next)` on, after the entry before them.
pub open spec fn is_replication_request(
    req: AppendEntriesRequest,
    term: u64,
    leader_id: NodeId,
    log: Seq<LogEntryView>,
    commit: u64,
    next: int,
) -> bool {
    let start = send_start(next, log.len());
    let prev = start - 1;
    &&& req.term == term
    &&& req.leader_id == leader_id
    &&& req.prev_log_index == prev
    &&& req.prev_log_term == (if 0 < prev <= log.len() {
        log[prev - 1].term
    } else {
        0
    })
    &&& req.entries.deep_view() == log.subrange(start - 1, log.len() as int)
    &&& req.leader_commit == commit
}

impl<S, SM> RaftNode<S, SM> where S: Storage, SM: StateMachine {
    /// The commit index a leader moves to: the highest index that a majority
    /// holds, when that is beyond its commit index.
    pub open spec fn commit_target(&self) -> Option<u64> {
        match self.state_data {
            NodeState::Leader(l) => {
                let vals = replicated_indices(l, self.logs@.len());
                let maj = majority_of(self.peers@.len());
                if vals.len() >= maj && kth_largest(vals, maj) > self.commit_idx {
                    Some(kth_largest(vals, maj))
                } else {
                    None
                }
            },
            _ => None,
        }
    }

    /// `node` in the role `state`, with nothing else changed.
    pub open spec fn with_state(node: Self, state: NodeState) -> Self {
        RaftNode { state_data: state, ..node }
    }

    /// The commit target of `old` once its role is that of `self`.
    pub open spec fn commit_target_after_progress(&self, old: Self) -> Option<u64> {
        Self::with_state(old, self.state_data).commit_target()
    }

    /// `new` is `old` with its commit index moved to `c`, persisted, and the
    /// newly committed entries applied.
    pub open spec fn committed_to(old: Self, new: Self, c: u64) -> bool {
        &&& new.commit_idx == c
        &&& new.storage.stored_commit_idx() == c
        &&& new.last_applied_idx == (if old.last_applied_idx < c {
            c
        } else {
            old.last_applied_idx
        })
        &&& new.storage.stored_last_applied_idx() == new.last_applied_idx
        &&& new.storage.stored_voting_state() == old.storage.stored_voting_state()
        &&& new.storage.stored_log() == old.storage.stored_log()
        &&& apply_outcome(
            old.state_machine.reliable(),
            old.state_machine.contents(),
            new.state_machine.contents(),
            old.log_view(),
            old.last_applied_idx as int,
            new.last_applied_idx as int,
        )
        &&& new.state_machine.reliable() == old.state_machine.reliable()
        &&& new.id == old.id
        &&& new.config == old.config
        &&& new.peers == old.peers
        &&& new.logs == old.logs
        &&& new.last_snapshot_idx == old.last_snapshot_idx
        &&& new.current_term == old.current_term
        &&& new.state_data == old.state_data
    }

    /// As leader, moves the commit index to the highest index held by a
    /// majority (this node included) when that is beyond it, persists it and
    /// applies the newly committed entries.
    pub fn update_commit_index(&mut self)
        requires
            old(self).peers@.len() < usize::MAX,
        ensures
            match old(self).commit_target() {
                Some(c) => Self::committed_to(*old(self), *final(self), c),
                None => *final(self) == *old(self),
            },
    {
        let mut match_indices = match &self.state_data {
            NodeState::Leader(leader_state) => leader_state.match_index.values(),
            _ => return ,
        };
        match_indices.push(self.logs.len() as u64);
        let majority = (self.peers.len() + 1) / 2 + 1;
        if match_indices.len() >= majority {
            let new_commit_idx = kth_largest_value(&match_indices, majority);
            if new_commit_idx > self.commit_idx {
                self.commit_idx = new_commit_idx;
                self.storage.persist_commit_idx(self.commit_idx);
                self.apply_committed_entries();
            }
        }
    }

    /// `new` is `old` stepped down to a follower of term `term` that
    /// remembers `voted_for` and has persisted `stored`; its log, counters and
    /// state machine are unchanged.
    pub open spec fn stepped_down_persisting(
        old: Self,
        new: Self,
        term: u64,
        voted_for: Option<NodeId>,
        stored: VotingState,
    ) -> bool {
        &&& new.current_term == term
        &&& new.state_data == NodeState::Follower(Follower { voted_for })
        &&& new.storage.stored_voting_state() == stored
        &&& new.storage.stored_commit_idx() == old.storage.stored_commit_idx()
        &&& new.storage.stored_last_applied_idx() == old.storage.stored_last_applied_idx()
        &&& new.storage.stored_log() == old.storage.stored_log()
        &&& new.state_machine == old.state_machine
        &&& new.logs == old.logs
        &&& new.commit_idx == old.commit_idx
        &&& new.last_applied_idx == old.last_applied_idx
        &&& new.last_snapshot_idx == old.last_snapshot_idx
        &&& new.id == old.id
        &&& new.config == old.config
        &&& new.peers == old.peers
    }

    /// The effect of a follower's answer on a leader: whether it stops
    /// leading (`r`) and the node `new` that `old` becomes.
    pub open spec fn append_response_effect(
        old: Self,
        new: Self,
        follower_id: NodeId,
        resp: AppendEntriesResponse,
        r: bool,
    ) -> bool {
        if resp.term > old.current_term {
            &&& r
            &&& Self::stepped_down_persisting(
                old,
                new,
                resp.term,
                None,
                VotingState { current_term: resp.term, voted_for: None },
            )
        } else if !(old.state_data is Leader) {
            r && new == old
        } else if resp.success {
            let ol = old.state_data->Leader_0;
            &&& !r
            &&& new.state_data is Leader
            &&& new.state_data->Leader_0.match_index@ == ol.match_index@.insert(
                follower_id,
                resp.match_index,
            )
            &&& new.state_data->Leader_0.next_index@ == ol.next_index@.insert(
                follower_id,
                (resp.match_index + 1) as u64,
            )
            &&& match new.commit_target_after_progress(old) {
                Some(c) => Self::committed_to(Self::with_state(old, new.state_data), new, c),
                None => new == Self::with_state(old, new.state_data),
            }
        } else {
            let ol = old.state_data->Leader_0;
            &&& !r
            &&& new.state_data is Leader
            &&& new.state_data->Leader_0.match_index == ol.match_index
            &&& new.state_data->Leader_0.next_index@ == (if ol.next_index@.dom().contains(
                follower_id,
            ) {
                ol.next_index@.insert(
                    follower_id,
                    next_index_after_rejection(
                        old.log_view(),
                        ol.next_index@[follower_id],
                        resp.conflict_index,
                        resp.conflict_term,
                    ),
                )
            } else {
                ol.next_index@
            })
            &&& new == Self::with_state(old, new.state_data)
        }
    }

    /// The effect of a vote request on a leader: the decision and the answer
    /// `r`, and the node `new` that `old` becomes.
    pub open spec fn vote_as_leader_effect(
        old: Self,
        new: Self,
        candidate_id: NodeId,
        vote_req: RequestVoteRequest,
        r: (bool, MessageEnvelope),
    ) -> bool {
        &&& r.0 == (vote_req.term > old.current_term)
        &&& r.1 == (MessageEnvelope {
            to: candidate_id,
            from: old.id,
            message: RpcMessage::RequestVoteResponse(
                RequestVoteResponse { term: new.current_term, vote_granted: r.0 },
            ),
        })
        &&& if vote_req.term > old.current_term {
            Self::stepped_down_persisting(
                old,
                new,
                vote_req.term,
                Some(candidate_id),
                VotingState {
                    current_term: vote_req.term,
                    voted_for: Some(candidate_id.0 as u64),
                },
            )
        } else {
            new == old
        }
    }

    /// The next index to try for a follower that reported a conflict at
    /// `conflict_index` with term `conflict_term`.
    fn conflict_next_index(&self, conflict_index: u64, conflict_term: u64) -> (r: u64)
        ensures
            r == next_index_after_conflict(self.log_view(), conflict_index, conflict_term),
    {
        let len = self.logs.len() as u64;
        if conflict_index > len {
            return conflict_index;
        }
        let mut k: usize = conflict_index as usize;
        while k > 0
            invariant
                k <= conflict_index <= len,
                len == self.logs@.len(),
                last_below_term(self.log_view(), k as int, conflict_term) == last_below_term(
                    self.log_view(),
                    conflict_index as int,
                    conflict_term,
                ),
            decreases k,
        {
            proof {
                assert(self.log_view()[k - 1] == self.logs@[k - 1]@);
            }
            if self.logs[k - 1].term < conflict_term {
                return k as u64;
            }
            k = k - 1;
        }
        conflict_index
    }

    /// Handles a follower's answer to an append request and returns whether
    /// the node stops leading. A higher term makes it a follower of that term
    /// (persisting the term); a success records the follower's progress and
    /// advances the commit index; a refusal moves the follower's next index
    /// back, by the conflict it reported when it reported one.
    pub fn handle_append_entries_response(
        &mut self,
        follower_id: NodeId,
        resp: &AppendEntriesResponse,
    ) -> (r: bool)
        requires
            old(self).peers@.len() < usize::MAX,
            resp.success && resp.term <= old(self).current_term && old(self).state_data is Leader
                ==> resp.match_index < u64::MAX,
        ensures
            Self::append_response_effect(*old(self), *final(self), follower_id, *resp, r),
    {
        if resp.term > self.current_term {
            self.current_term = resp.term;
            self.state_data = NodeState::Follower(Follower { voted_for: None });
            self.storage.persist_voting_state(
                &VotingState { current_term: self.current_term, voted_for: None },
            );
            return true;
        }
        if !self.state_data.is_leader() {
            return true;
        }
        let mut st = NodeState::Follower(Follower { voted_for: None });
        std::mem::swap(&mut st, &mut self.state_data);
        let mut leader_state = match st {
            NodeState::Leader(l) => l,
            _ => {
                proof {
                    assert(false);
                }
                return true;
            },
        };
        if resp.success {
            leader_state.match_index.insert(follower_id, resp.match_index);
            leader_state.next_index.insert(follower_id, resp.match_index + 1);
            self.state_data = NodeState::Leader(leader_state);
            let ghost mid = *self;
            self.update_commit_index();
            assert(mid == Self::with_state(*old(self), self.state_data));
        } else {
            match leader_state.next_index.get(&follower_id) {
                Some(next_idx) => {
                    let new_next_idx = match (resp.conflict_index, resp.conflict_term) {
                        (Some(conflict_idx), Some(conflict_term)) => self.conflict_next_index(
                            conflict_idx,
                            conflict_term,
                        ),
                        (Some(conflict_idx), None) => conflict_idx,
                        _ => if next_idx > 1 {
                            next_idx - 1
                        } else {
                            next_idx
                        },
                    };
                    leader_state.next_index.insert(follower_id, new_next_idx);
                },
                None => {},
            }
            self.state_data = NodeState::Leader(leader_state);
        }
        false
    }

    /// Answers a vote request while leading and returns whether the vote is
    /// granted, with the answer to send to the candidate. A higher term makes
    /// the node a follower that votes for the candidate (persisting the
    /// vote); any other request is refused.
    pub fn handle_request_vote_as_leader(
        &mut self,
        candidate_id: NodeId,
        vote_req: &RequestVoteRequest,
    ) -> (r: (bool, MessageEnvelope))
        ensures
            Self::vote_as_leader_effect(*old(self), *final(self), candidate_id, *vote_req, r),
    {
        let mut vote_granted = false;
        if vote_req.term > self.current_term {
            self.current_term = vote_req.term;
            self.state_data = NodeState::Follower(Follower { voted_for: Some(candidate_id) });
            let voting_state = VotingState {
                current_term: self.current_term,
                voted_for: Some(candidate_id.0 as u64),
            };
            self.storage.persist_voting_state(&voting_state);
            vote_granted = true;
        }
        let response = RequestVoteResponse { term: self.current_term, vote_granted };
        let response_msg = MessageEnvelope {
            to: candidate_id,
            from: self.id,
            message: RpcMessage::RequestVoteResponse(response),
        };
        (vote_granted, response_msg)
    }

    /// Handles a message while leading and returns whether the node stops
    /// leading, with the reply to send if there is one: answers of followers
    /// and vote requests go to their handlers; an append request of a higher
    /// term (another leader) makes the node a follower of that term.
    pub fn handle_leader_message(&mut self, rpc_req: MessageEnvelope) -> (r: (
        bool,
        Option<MessageEnvelope>,
    ))
        requires
            old(self).peers@.len() < usize::MAX,
            rpc_req.message matches RpcMessage::AppendEntriesResponse(resp) ==> (resp.success
                && resp.term <= old(self).current_term && old(self).state_data is Leader
                ==> resp.match_index < u64::MAX),
        ensures
            match rpc_req.message {
                RpcMessage::AppendEntriesResponse(resp) => {
                    &&& r.1 is None
                    &&& Self::append_response_effect(*old(self), *final(self), rpc_req.from, resp, r.0)
                },
                RpcMessage::RequestVote(vote_req) => {
                    &&& r.1 is Some
                    &&& Self::vote_as_leader_effect(
                        *old(self),
                        *final(self),
                        rpc_req.from,
                        vote_req,
                        (r.0, r.1->0),
                    )
                },
                RpcMessage::AppendEntries(req) => if req.term > old(self).current_term {
                    &&& r == (true, None::<MessageEnvelope>)
                    &&& Self::stepped_down(*old(self), *final(self), req.term, None)
                } else {
                    &&& r == (false, None::<MessageEnvelope>)
                    &&& *final(self) == *old(self)
                },
                _ => r == (false, None::<MessageEnvelope>) && *final(self) == *old(self),
            },
    {
        let from = rpc_req.from;
        match rpc_req.message {
            RpcMessage::AppendEntriesResponse(resp) => {
                let step_down = self.handle_append_entries_response(from, &resp);
                (step_down, None)
            },
            RpcMessage::RequestVote(vote_req) => {
                let (granted, msg) = self.handle_request_vote_as_leader(from, &vote_req);
                (granted, Some(msg))
            },
            RpcMessage::AppendEntries(req) => {
                if req.term > self.current_term {
                    self.current_term = req.term;
                    self.state_data = NodeState::Follower(Follower { voted_for: None });
                    return (true, None);
                }
                (false, None)
            },
            _ => (false, None),
        }
    }

    /// As leader, the append request for each peer, in the order of the
    /// peers: the entries from the peer's next index on, or the whole log when
    /// that index is past its end, with the index and term of the entry
    /// before them. Not leading, no request.
    pub fn send_leader_heartbeat(&self) -> (r: Vec<MessageEnvelope>)
        requires
            self.logs@.len() < u64::MAX,
            self.state_data matches NodeState::Leader(l) ==> forall|i: int|
                0 <= i < self.peers@.len() && l.next_index@.dom().contains(
                    #[trigger] self.peers@[i],
                ) ==> l.next_index@[self.peers@[i]] != 0,
        ensures
            !(self.state_data is Leader) ==> r@.len() == 0,
            self.state_data matches NodeState::Leader(l) ==> {
                &&& r@.len() == self.peers@.len()
                &&& forall|i: int|
                    0 <= i < r@.len() ==> {
                        &&& (#[trigger] r@[i]).to == self.peers@[i]
                        &&& r@[i].from == self.id
                        &&& r@[i].message is AppendEntries
                        &&& r@[i].message->AppendEntries_0.leader_commit == self.commit_idx
                        &&& r@[i].message->AppendEntries_0.term == self.current_term
                        &&& is_replication_request(
                            r@[i].message->AppendEntries_0,
                            self.current_term,
                            self.id,
                            self.log_view(),
                            self.commit_idx,
                            next_index_for(l, self.peers@[i], self.logs@.len()),
                        )
                    }
            },
    {
        let leader_state = match &self.state_data {
            NodeState::Leader(state) => state,
            _ => return Vec::new(),
        };
        let n_logs: usize = self.logs.len();
        let len = n_logs as u64;
        let mut out: Vec<MessageEnvelope> = Vec::new();
        let n = self.peers.len();
        for i in 0..n
            invariant
                n == self.peers@.len(),
                n_logs == self.logs@.len(),
                len == n_logs,
                len < u64::MAX,
                self.state_data == NodeState::Leader(*leader_state),
                forall|k: int|
                    0 <= k < self.peers@.len() && leader_state.next_index@.dom().contains(
                        #[trigger] self.peers@[k],
                    ) ==> leader_state.next_index@[self.peers@[k]] != 0,
                out@.len() == i,
                forall|j: int|
                    0 <= j < i ==> {
                        &&& (#[trigger] out@[j]).to == self.peers@[j]
                        &&& out@[j].from == self.id
                        &&& out@[j].message is AppendEntries
                        &&& is_replication_request(
                            out@[j].message->AppendEntries_0,
                            self.current_term,
                            self.id,
                            self.log_view(),
                            self.commit_idx,
                            next_index_for(*leader_state, self.peers@[j], self.logs@.len()),
                        )
                    },
        {
            let peer = self.peers[i];
            let next_idx = match leader_state.next_index.get(&peer) {
                Some(v) => v,
                None => len + 1,
            };
            assert(next_idx == next_index_for(*leader_state, self.peers@[i as int], self.logs@.len()));
            let start = if next_idx <= len {
                next_idx
            } else {
                1
            };
            let entries = clone_log_from(&self.logs, (start - 1) as usize);
            let prev_log_index = start - 1;
            let prev_log_term = if prev_log_index > 0 && prev_log_index <= len {
                proof {
                    assert(self.log_view()[prev_log_index - 1] == self.logs@[prev_log_index - 1]@);
                }
                self.logs[(prev_log_index - 1) as usize].term
            } else {
                0
            };
            let request = AppendEntriesRequest {
                term: self.current_term,
                leader_id: self.id,
                prev_log_index,
                prev_log_term,
                entries,
                leader_commit: self.commit_idx,
            };
            proof {
                assert(is_replication_request(
                    request,
                    self.current_term,
                    self.id,
                    self.log_view(),
                    self.commit_idx,
                    next_index_for(*leader_state, self.peers@[i as int], self.logs@.len()),
                ));
            }
            let ghost out_before = out@;
            out.push(
                MessageEnvelope {
                    to: peer,
                    from: self.id,
                    message: RpcMessage::AppendEntries(request),
                },
            );
            proof {
                assert forall|j: int| 0 <= j < i implies #[trigger] out@[j] == out_before[j] by {}
            }
        }
        out
    }

    /// Before leading, gives every peer without recorded progress a next
    /// index just past the end of the log and a match index of 0.
    pub fn init_leader_progress(&mut self)
        requires
            old(self).logs@.len() < u64::MAX,
        ensures
            Self::same_but_role(*old(self), *final(self)),
            final(self).current_term == old(self).current_term,
            !(old(self).state_data is Leader) ==> final(self).state_data == old(self).state_data,
            old(self).state_data matches NodeState::Leader(l) ==> {
                &&& final(self).state_data is Leader
                &&& final(self).state_data->Leader_0.next_index@ == Map::new(
                    |k: NodeId| l.next_index@.dom().contains(k) || old(self).peers@.contains(k),
                    |k: NodeId|
                        if l.next_index@.dom().contains(k) {
                            l.next_index@[k]
                        } else {
                            (old(self).logs@.len() + 1) as u64
                        },
                )
                &&& final(self).state_data->Leader_0.match_index@ == Map::new(
                    |k: NodeId| l.match_index@.dom().contains(k) || old(self).peers@.contains(k),
                    |k: NodeId|
                        if l.match_index@.dom().contains(k) {
                            l.match_index@[k]
                        } else {
                            0u64
                        },
                )
            },
    {
        if !self.state_data.is_leader() {
            return ;
        }
        let mut st = NodeState::Follower(Follower { voted_for: None });
        std::mem::swap(&mut st, &mut self.state_data);
        let mut leader_state = match st {
            NodeState::Leader(l) => l,
            _ => {
                proof {
                    assert(false);
                }
                return ;
            },
        };
        let ghost l0 = leader_state;
        let next = self.logs.len() as u64 + 1;
        let n = self.peers.len();
        for i in 0..n
            invariant
                n == self.peers@.len(),
                next == self.logs@.len() + 1,
                leader_state.next_index@ == Map::new(
                    |k: NodeId| l0.next_index@.dom().contains(k) || self.peers@.take(i as int).contains(k),
                    |k: NodeId|
                        if l0.next_index@.dom().contains(k) {
                            l0.next_index@[k]
                        } else {
                            next
                        },
                ),
                leader_state.match_index@ == Map::new(
                    |k: NodeId| l0.match_index@.dom().contains(k) || self.peers@.take(i as int).contains(k),
                    |k: NodeId|
                        if l0.match_index@.dom().contains(k) {
                            l0.match_index@[k]
                        } else {
                            0u64
                        },
                ),
        {
            let peer = self.peers[i];
            proof {
                assert(self.peers@.take(i + 1) =~= self.peers@.take(i as int).push(peer));
                assert forall|k: NodeId| #[trigger] self.peers@.take(i + 1).contains(k) <==> (
                self.peers@.take(i as int).contains(k) || k == peer) by {
                    if self.peers@.take(i as int).contains(k) {
                        let j = choose|j: int| 0 <= j < i && #[trigger] self.peers@.take(i as int)[j] == k;
                        assert(self.peers@.take(i + 1)[j] == k);
                    }
                    if k == peer {
                        assert(self.peers@.take(i + 1)[i as int] == k);
                    }
                    if self.peers@.take(i + 1).contains(k) && k != peer {
                        let j = choose|j: int| 0 <= j < i + 1 && #[trigger] self.peers@.take(i + 1)[j] == k;
                        assert(self.peers@.take(i as int)[j] == k);
                    }
                }
            }
            if !leader_state.next_index.contains_key(&peer) {
                leader_state.next_index.insert(peer, next);
            }
            if !leader_state.match_index.contains_key(&peer) {
                leader_state.match_index.insert(peer, 0);
            }
            proof {
                assert(leader_state.next_index@ =~= Map::new(
                    |k: NodeId| l0.next_index@.dom().contains(k) || self.peers@.take(i + 1).contains(k),
                    |k: NodeId|
                        if l0.next_index@.dom().contains(k) {
                            l0.next_index@[k]
                        } else {
                            next
                        },
                ));
                assert(leader_state.match_index@ =~= Map::new(
                    |k: NodeId| l0.match_index@.dom().contains(k) || self.peers@.take(i + 1).contains(k),
                    |k: NodeId|
                        if l0.match_index@.dom().contains(k) {
                            l0.match_index@[k]
                        } else {
                            0u64
                        },
                ));
            }
        }
        assert(self.peers@.take(n as int) =~= self.peers@);
        self.state_data = NodeState::Leader(leader_state);
    }
}

} // verus!
