//! What a node does with the requests of a leader and of candidates.

use vstd::prelude::*;
use crate::types::{NodeId, LogEntry, LogEntryView, clone_log};
use crate::message::{
    MessageEnvelope, RpcMessage, AppendEntriesRequest, AppendEntriesResponse, RequestVoteRequest,
    RequestVoteResponse,
};
use crate::storage::{Storage, VotingState};
use crate::state_machine::StateMachine;
use super::RaftNode;
use super::model::{
    run_start, log_consistent, conflict_index_of, append_entries_answer, append_accepted,
    log_after_append, commit_after_append, voting_state_after_term, apply_outcome,
    vote_answer, voting_state_after_vote, stores_exactly, indexed_in_place,
};

verus! {

proof fn lemma_run_start_bounds(log: Seq<LogEntryView>, j: int, t: u64)
    requires
        j >= 1,
    ensures
        1 <= run_start(log, j, t) <= j,
    decreases j,
{
    if j > 1 && log[j - 2].term == t {
        lemma_run_start_bounds(log, j - 1, t);
    }
}

/// Storage that held exactly an in-place indexed log holds exactly the log
/// that an accepted, non-empty append makes of it.
proof fn lemma_append_stores_exactly(
    old_stored: Seq<LogEntryView>,
    old_log: Seq<LogEntryView>,
    p: u64,
    entries: Seq<LogEntryView>,
    new_stored: Seq<LogEntryView>,
)
    requires
        stores_exactly(old_stored, old_log),
        indexed_in_place(old_log),
        p <= old_log.len(),
        forall|i: int|
            0 <= i < (old_log.take(p as int) + entries).len() ==> new_stored.contains(
                #[trigger] (old_log.take(p as int) + entries)[i],
            ),
        forall|e: LogEntryView| #[trigger]
            new_stored.contains(e) ==> (old_log.take(p as int) + entries).contains(e) || (
            old_stored.contains(e) && (p < old_log.len() ==> e.index <= p)),
    ensures
        stores_exactly(new_stored, old_log.take(p as int) + entries),
{
    let new_log = old_log.take(p as int) + entries;
    assert forall|e: LogEntryView| #[trigger] new_stored.contains(e) <==> new_log.contains(e) by {
        if new_log.contains(e) {
            let i = choose|i: int| 0 <= i < new_log.len() && new_log[i] == e;
            assert(new_stored.contains(new_log[i]));
        }
        if new_stored.contains(e) && !new_log.contains(e) {
            assert(old_log.contains(e));
            let k = choose|k: int| 0 <= k < old_log.len() && old_log[k] == e;
            assert(old_log[k].index == k + 1);
            assert(new_log[k] == e);
        }
    }
}

/// Pushes copies of `entries` onto `logs`.
fn extend_log(logs: &mut Vec<LogEntry>, entries: &Vec<LogEntry>)
    ensures
        final(logs).deep_view() == old(logs).deep_view() + entries.deep_view(),
{
    let ghost start = logs.deep_view();
    let n = entries.len();
    for i in 0..n
        invariant
            n == entries@.len(),
            logs.deep_view() == start + entries.deep_view().take(i as int),
    {
        let e = entries[i].clone();
        let ghost before = logs.deep_view();
        logs.push(e);
        proof {
            assert(logs.deep_view() =~= before.push(entries@[i as int]@));
            assert(entries.deep_view().take(i + 1) =~= entries.deep_view().take(i as int).push(
                entries@[i as int]@,
            ));
            assert(logs.deep_view() =~= start + entries.deep_view().take(i + 1));
        }
    }
    assert(entries.deep_view().take(n as int) =~= entries.deep_view());
}

/// The effect of a leader's append request on a node: the answer `resp`
/// and the node `new` that `old` becomes.
pub open spec fn append_entries_effect<S: Storage, SM: StateMachine>(
    old: RaftNode<S, SM>,
    new: RaftNode<S, SM>,
    req: AppendEntriesRequest,
    resp: AppendEntriesResponse,
) -> bool {
    let t1 = if req.term > old.current_term {
        req.term
    } else {
        old.current_term
    };
    let old_log = old.log_view();
    let p = req.prev_log_index;
    let new_log = log_after_append(old_log, p, req.entries.deep_view());
    &&& resp == append_entries_answer(
        t1,
        old_log,
        req.term,
        p,
        req.prev_log_term,
        req.entries.deep_view(),
    )
    &&& new.current_term == t1
    &&& new.current_term >= old.current_term
    &&& new.storage.stored_voting_state() == voting_state_after_term(
        old.storage.stored_voting_state(),
        old.current_term,
        req.term,
    )
    &&& if append_accepted(t1, old_log, req.term, p, req.prev_log_term) {
        &&& new.log_view() == new_log
        &&& new.commit_idx == commit_after_append(old.commit_idx, req.leader_commit, new_log.len())
        &&& new.last_applied_idx == (if old.last_applied_idx < new.commit_idx {
            new.commit_idx
        } else {
            old.last_applied_idx
        })
        &&& new.storage.stored_commit_idx() == (if req.leader_commit > old.commit_idx {
            new.commit_idx
        } else {
            old.storage.stored_commit_idx()
        })
        &&& new.storage.stored_last_applied_idx() == new.last_applied_idx
        &&& req.entries@.len() > 0 ==> forall|i: int|
            0 <= i < new_log.len() ==> new.storage.stored_log().contains(#[trigger] new_log[i])
        &&& req.entries@.len() > 0 ==> forall|e: LogEntryView| #[trigger]
            new.storage.stored_log().contains(e) ==> new_log.contains(e) || (
            old.storage.stored_log().contains(e) && (p < old_log.len() ==> e.index <= p))
        &&& req.entries@.len() == 0 ==> new.storage.stored_log() == old.storage.stored_log()
        &&& apply_outcome(
            old.state_machine.reliable(),
            old.state_machine.contents(),
            new.state_machine.contents(),
            new_log,
            old.last_applied_idx as int,
            new.last_applied_idx as int,
        )
    } else {
        &&& new.logs == old.logs
        &&& new.commit_idx == old.commit_idx
        &&& new.last_applied_idx == old.last_applied_idx
        &&& new.storage.stored_commit_idx() == old.storage.stored_commit_idx()
        &&& new.storage.stored_last_applied_idx() == old.storage.stored_last_applied_idx()
        &&& new.storage.stored_log() == old.storage.stored_log()
        &&& new.state_machine == old.state_machine
    }
    &&& stores_exactly(old.storage.stored_log(), old_log) && indexed_in_place(old_log)
        ==> stores_exactly(new.storage.stored_log(), new.log_view())
    &&& new.state_machine.reliable() == old.state_machine.reliable()
    &&& new.id == old.id
    &&& new.config == old.config
    &&& new.peers == old.peers
    &&& new.last_snapshot_idx == old.last_snapshot_idx
    &&& new.state_data == old.state_data
}

/// The effect of a vote request on a node: the answer `resp` and the node
/// `new` that `old` becomes. Only the term and the persisted vote change.
pub open spec fn request_vote_effect<S: Storage, SM: StateMachine>(
    old: RaftNode<S, SM>,
    new: RaftNode<S, SM>,
    req: RequestVoteRequest,
    resp: RequestVoteResponse,
) -> bool {
    let t1 = if req.term > old.current_term {
        req.term
    } else {
        old.current_term
    };
    let vs1 = voting_state_after_term(
        old.storage.stored_voting_state(),
        old.current_term,
        req.term,
    );
    &&& resp == vote_answer(
        old.storage.stored_voting_state(),
        old.current_term,
        old.log_view(),
        req.term,
        req.candidate_id,
        req.last_log_index,
        req.last_log_term,
    )
    &&& new.current_term == t1
    &&& new.current_term >= old.current_term
    &&& new.storage.stored_voting_state() == voting_state_after_vote(
        vs1,
        t1,
        old.log_view(),
        req.term,
        req.candidate_id,
        req.last_log_index,
        req.last_log_term,
    )
    &&& new.storage.stored_commit_idx() == old.storage.stored_commit_idx()
    &&& new.storage.stored_last_applied_idx() == old.storage.stored_last_applied_idx()
    &&& new.storage.stored_log() == old.storage.stored_log()
    &&& new.state_machine == old.state_machine
    &&& new.logs == old.logs
    &&& new.commit_idx == old.commit_idx
    &&& new.last_applied_idx == old.last_applied_idx
    &&& new.id == old.id
    &&& new.config == old.config
    &&& new.peers == old.peers
    &&& new.last_snapshot_idx == old.last_snapshot_idx
    &&& new.state_data == old.state_data
}

impl<S, SM> RaftNode<S, SM> where S: Storage, SM: StateMachine {
    /// Whether the log agrees with a leader at `prev_log_index`.
    pub fn check_log_consistency(&self, prev_log_index: u64, prev_log_term: u64) -> (r: bool)
        ensures
            r == log_consistent(self.log_view(), prev_log_index, prev_log_term),
    {
        if prev_log_index == 0 {
            return true;
        }
        if prev_log_index > self.logs.len() as u64 {
            return false;
        }
        let entry = &self.logs[(prev_log_index - 1) as usize];
        proof {
            assert(self.log_view()[prev_log_index - 1] == entry@);
        }
        entry.term == prev_log_term
    }

    fn find_conflict_index(&self, prev_log_index: u64) -> (r: u64)
        requires
            self.logs@.len() < u64::MAX,
        ensures
            r == conflict_index_of(self.log_view(), prev_log_index),
    {
        let len = self.logs.len() as u64;
        if prev_log_index > 0 && prev_log_index <= len {
            let t = self.logs[(prev_log_index - 1) as usize].term;
            let p = prev_log_index as usize;
            let mut i: usize = p;
            proof {
                assert(self.log_view()[prev_log_index - 1].term == t);
                if i > 1 {
                    assert(self.log_view()[i - 2] == self.logs@[i - 2]@);
                }
            }
            let mut more = i > 1 && self.logs[i - 2].term == t;
            while more
                invariant
                    1 <= i <= p,
                    p == prev_log_index,
                    p <= self.logs@.len(),
                    run_start(self.log_view(), i as int, t) == run_start(
                        self.log_view(),
                        prev_log_index as int,
                        t,
                    ),
                    more == (i > 1 && self.log_view()[i - 2].term == t),
                decreases i,
            {
                i = i - 1;
                proof {
                    if i > 1 {
                        assert(self.log_view()[i - 2] == self.logs@[i - 2]@);
                    }
                }
                more = i > 1 && self.logs[i - 2].term == t;
            }
            i as u64
        } else if prev_log_index > len {
            len + 1
        } else {
            1
        }
    }

    /// Handles a leader's request: steps up to a higher term, refuses a
    /// stale request or one that disagrees with the log (reporting where the
    /// disagreement starts), and otherwise replaces the log after
    /// `prev_log_index` with the sent entries, advances the commit index and
    /// applies what is newly committed.
    pub fn handle_append_entries(&mut self, req: &AppendEntriesRequest) -> (r:
        AppendEntriesResponse)
        requires
            old(self).logs@.len() < u64::MAX,
        ensures
            append_entries_effect(*old(self), *final(self), *req, r),
    {
        // 1. Check term - step down if higher
        if req.term > self.current_term {
            self.current_term = req.term;
            let voting_state = VotingState { current_term: self.current_term, voted_for: None };
            self.storage.persist_voting_state(&voting_state);
        }
        // 2. Reject if term is lower
        if req.term < self.current_term {
            return AppendEntriesResponse {
                term: self.current_term,
                success: false,
                match_index: 0,
                conflict_index: Some(req.prev_log_index),
                conflict_term: Some(req.prev_log_term),
            };
        }
        // 3. Check log consistency (prev_log_index/prev_log_term)
        let log_ok = self.check_log_consistency(req.prev_log_index, req.prev_log_term);
        if !log_ok {
            let conflict_index = self.find_conflict_index(req.prev_log_index);
            proof {
                if req.prev_log_index > 0 && req.prev_log_index <= self.logs@.len() {
                    lemma_run_start_bounds(
                        self.log_view(),
                        req.prev_log_index as int,
                        self.log_view()[req.prev_log_index - 1].term,
                    );
                }
            }
            let conflict_term = if conflict_index > 0 && conflict_index <= self.logs.len() as u64 {
                proof {
                    assert(self.log_view()[conflict_index - 1] == self.logs@[conflict_index
                        - 1]@);
                }
                self.logs[(conflict_index - 1) as usize].term
            } else {
                0
            };
            return AppendEntriesResponse {
                term: self.current_term,
                success: false,
                match_index: 0,
                conflict_index: Some(conflict_index),
                conflict_term: Some(conflict_term),
            };
        }
        // 4. Append entries to log (not state machine yet!)
        let ghost old_log = self.log_view();
        if req.entries.len() > 0 {
            let ghost stored0 = self.storage.stored_log();
            let start_idx = req.prev_log_index as usize;
            if start_idx < self.logs.len() {
                self.logs.truncate(start_idx);
                self.storage.truncate_from((start_idx + 1) as u64);
            }
            assert(self.log_view() =~= old_log.take(start_idx as int));
            let ghost stored1 = self.storage.stored_log();
            assert(forall|e: LogEntryView| #[trigger]
                stored1.contains(e) ==> stored0.contains(e) && (start_idx < old_log.len()
                    ==> e.index <= req.prev_log_index));
            // Append new entries (entries from the leader already carry their index)
            extend_log(&mut self.logs, &req.entries);
            let logs_to_store = clone_log(&self.logs);
            self.storage.append_log_entries(logs_to_store);
            proof {
                let new_log = self.log_view();
                assert forall|i: int| 0 <= i < new_log.len() implies #[trigger] new_log[i]
                    == logs_to_store@[i]@ by {}
                assert forall|e: LogEntryView| #[trigger]
                    self.storage.stored_log().contains(e) implies new_log.contains(e) || (
                    stored0.contains(e) && (req.prev_log_index < old_log.len() ==> e.index
                        <= req.prev_log_index)) by {
                    if !stored1.contains(e) {
                        let i = choose|i: int|
                            0 <= i < logs_to_store@.len() && logs_to_store@[i]@ == e;
                        assert(new_log[i] == e);
                    }
                }
                if stores_exactly(stored0, old_log) && indexed_in_place(old_log) {
                    lemma_append_stores_exactly(
                        stored0,
                        old_log,
                        req.prev_log_index,
                        req.entries.deep_view(),
                        self.storage.stored_log(),
                    );
                }
            }
        }
        // 5. Update commit_index (but don't apply yet)
        if req.leader_commit > self.commit_idx {
            let last_log_idx = self.logs.len() as u64;
            self.commit_idx = if req.leader_commit < last_log_idx {
                req.leader_commit
            } else {
                last_log_idx
            };
            self.storage.persist_commit_idx(self.commit_idx);
        }
        // 6. Apply committed entries to state machine
        self.apply_committed_entries();
        // 7. Return success
        AppendEntriesResponse {
            term: self.current_term,
            success: true,
            match_index: self.logs.len() as u64,
            conflict_index: None,
            conflict_term: None,
        }
    }

    /// Handles a vote request: steps up to a higher term (clearing the vote),
    /// refuses a stale request, answers a repeated request of the candidate
    /// already voted for with a grant and any other candidate with a refusal,
    /// and otherwise grants the vote, and records it, when the candidate's
    /// log is at least as up to date.
    pub fn handle_request_vote(&mut self, vote_req: &RequestVoteRequest) -> (r:
        RequestVoteResponse)
        ensures
            request_vote_effect(*old(self), *final(self), *vote_req, r),
    {
        if vote_req.term > self.current_term {
            self.current_term = vote_req.term;
            let voting_state = VotingState { current_term: self.current_term, voted_for: None };
            self.storage.persist_voting_state(&voting_state);
        }
        let voting_state = self.storage.load_voting_state();
        let voted_for = match voting_state.voted_for {
            Some(id) => Some(NodeId(#[verifier::truncate] (id as u16))),
            None => None,
        };
        let vote_granted = if vote_req.term < self.current_term {
            false
        } else if let Some(voted) = voted_for {
            voted == vote_req.candidate_id
        } else {
            let (last_log_index, last_log_term) = self.get_last_log_info();
            let candidate_log_ok = vote_req.last_log_term > last_log_term || (vote_req.last_log_term
                == last_log_term && vote_req.last_log_index >= last_log_index);
            if candidate_log_ok {
                let voting_state = VotingState {
                    current_term: self.current_term,
                    voted_for: Some(vote_req.candidate_id.0 as u64),
                };
                self.storage.persist_voting_state(&voting_state);
                true
            } else {
                false
            }
        };
        RequestVoteResponse { term: self.current_term, vote_granted }
    }

    /// Handles a message in the follower role and returns the reply to send:
    /// an append request or a vote request is answered to its sender, any
    /// other message is ignored.
    pub fn handle_follower_message(&mut self, rpc_req: MessageEnvelope) -> (r: Option<
        MessageEnvelope,
    >)
        requires
            old(self).logs@.len() < u64::MAX,
        ensures
            match rpc_req.message {
                RpcMessage::AppendEntries(req) => exists|resp: AppendEntriesResponse|
                    {
                        &&& append_entries_effect(*old(self), *final(self), req, resp)
                        &&& r == Some(
                            MessageEnvelope {
                                to: rpc_req.from,
                                from: old(self).id,
                                message: RpcMessage::AppendEntriesResponse(resp),
                            },
                        )
                    },
                RpcMessage::RequestVote(req) => exists|resp: RequestVoteResponse|
                    {
                        &&& request_vote_effect(*old(self), *final(self), req, resp)
                        &&& r == Some(
                            MessageEnvelope {
                                to: rpc_req.from,
                                from: old(self).id,
                                message: RpcMessage::RequestVoteResponse(resp),
                            },
                        )
                    },
                _ => r is None && *final(self) == *old(self),
            },
    {
        let from = rpc_req.from;
        match rpc_req.message {
            RpcMessage::AppendEntries(req) => {
                let response = self.handle_append_entries(&req);
                Some(
                    MessageEnvelope {
                        to: from,
                        from: self.id,
                        message: RpcMessage::AppendEntriesResponse(response),
                    },
                )
            },
            RpcMessage::RequestVote(vote_req) => {
                let response = self.handle_request_vote(&vote_req);
                Some(
                    MessageEnvelope {
                        to: from,
                        from: self.id,
                        message: RpcMessage::RequestVoteResponse(response),
                    },
                )
            },
            _ => None,
        }
    }
}

} // verus!
