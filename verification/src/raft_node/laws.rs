//! Properties of the protocol that relate several of its decisions.

use vstd::prelude::*;
use crate::types::{NodeId, LogEntryView};
use crate::message::{AppendEntriesRequest, AppendEntriesResponse, RequestVoteRequest, RequestVoteResponse};
use crate::storage::Storage;
use crate::state_machine::StateMachine;
use crate::state::NodeState;
use super::RaftNode;
use super::model::{
    append_accepted, log_after_append, append_entries_answer, log_consistent, majority_of,
    count_at_least, next_index_after_conflict, last_below_term,
    conflict_index_of, run_start, applied_contents, apply_key, commit_after_append,
};
use super::leader::{is_replication_request, send_start, replicated_indices};
use super::follower::{request_vote_effect, append_entries_effect};
use crate::storage::VotingState;
use super::commit::lemma_kth_largest_exists;

verus! {

/// Log replication: a follower whose term is not above the leader's and
/// whose log agrees with the leader's up to where the leader's request
/// starts accepts the request, ends with exactly the leader's (non-empty)
/// log, and reports its whole length as replicated.
pub proof fn law_replication_makes_logs_equal(
    req: AppendEntriesRequest,
    leader_term: u64,
    leader_id: NodeId,
    leader_log: Seq<LogEntryView>,
    commit: u64,
    next: int,
    follower_term: u64,
    follower_log: Seq<LogEntryView>,
)
    requires
        is_replication_request(req, leader_term, leader_id, leader_log, commit, next),
        next >= 1,
        leader_log.len() > 0,
        leader_log.len() < u64::MAX,
        follower_term <= leader_term,
        follower_log.len() >= send_start(next, leader_log.len()) - 1,
        follower_log.take(send_start(next, leader_log.len()) - 1) == leader_log.take(
            send_start(next, leader_log.len()) - 1,
        ),
    ensures
        append_accepted(leader_term, follower_log, req.term, req.prev_log_index, req.prev_log_term),
        log_after_append(follower_log, req.prev_log_index, req.entries.deep_view()) == leader_log,
        append_entries_answer(
            leader_term,
            follower_log,
            req.term,
            req.prev_log_index,
            req.prev_log_term,
            req.entries.deep_view(),
        ).success,
        append_entries_answer(
            leader_term,
            follower_log,
            req.term,
            req.prev_log_index,
            req.prev_log_term,
            req.entries.deep_view(),
        ).match_index == leader_log.len(),
{
    let start = send_start(next, leader_log.len());
    let p = start - 1;
    if p > 0 {
        assert(follower_log[p - 1] == follower_log.take(p)[p - 1]);
        assert(leader_log[p - 1] == leader_log.take(p)[p - 1]);
    }
    assert(log_consistent(follower_log, req.prev_log_index, req.prev_log_term));
    assert(req.entries.deep_view().len() > 0);
    assert(follower_log.take(p) + leader_log.subrange(p, leader_log.len() as int) =~= leader_log);
}

/// One vote per term: once a node has granted its vote in a term, a vote
/// request of another candidate in the same term is refused.
pub proof fn law_one_vote_per_term<S: Storage, SM: StateMachine>(
    n0: RaftNode<S, SM>,
    n1: RaftNode<S, SM>,
    n2: RaftNode<S, SM>,
    first: RequestVoteRequest,
    r1: RequestVoteResponse,
    second: RequestVoteRequest,
    r2: RequestVoteResponse,
)
    requires
        request_vote_effect(n0, n1, first, r1),
        request_vote_effect(n1, n2, second, r2),
        first.term == second.term,
        first.candidate_id != second.candidate_id,
        r1.vote_granted,
    ensures
        !r2.vote_granted,
{
}

/// Any two groups of the cluster that each hold a majority share a node.
pub proof fn law_majorities_intersect(
    cluster: Set<NodeId>,
    a: Set<NodeId>,
    b: Set<NodeId>,
    n_peers: nat,
)
    requires
        cluster.finite(),
        cluster.len() == n_peers + 1,
        a.subset_of(cluster),
        b.subset_of(cluster),
        a.len() >= majority_of(n_peers),
        b.len() >= majority_of(n_peers),
    ensures
        exists|x: NodeId| a.contains(x) && b.contains(x),
{
    vstd::set_lib::lemma_len_subset(a, cluster);
    vstd::set_lib::lemma_len_subset(b, cluster);
    if !(exists|x: NodeId| a.contains(x) && b.contains(x)) {
        assert(a.disjoint(b));
        vstd::set_lib::lemma_set_disjoint_lens(a, b);
        assert((a + b).subset_of(cluster));
        vstd::set_lib::lemma_len_subset(a + b, cluster);
    }
}

/// The commit index a leader moves to is held by a majority of the cluster
/// (itself included), and is beyond its previous commit index.
pub proof fn law_commit_target_held_by_majority<S: Storage, SM: StateMachine>(
    node: RaftNode<S, SM>,
    c: u64,
)
    requires
        node.commit_target() == Some(c),
    ensures
        node.state_data is Leader,
        count_at_least(
            replicated_indices(node.state_data->Leader_0, node.logs@.len()),
            c as int,
        ) >= majority_of(node.peers@.len()),
        c > node.commit_idx,
{
    let l = node.state_data->Leader_0;
    let vals = replicated_indices(l, node.logs@.len());
    lemma_kth_largest_exists(vals, majority_of(node.peers@.len()));
}

/// A leader that learns of a conflict never moves a follower's next index
/// past the reported conflict index.
pub proof fn law_backoff_not_beyond_conflict(
    log: Seq<LogEntryView>,
    conflict_index: u64,
    conflict_term: u64,
)
    ensures
        next_index_after_conflict(log, conflict_index, conflict_term) <= conflict_index,
{
    lemma_last_below_term_bound(log, conflict_index as int, conflict_term);
}

/// A leader's next indices stay at least 1 through a follower's answer,
/// provided the follower reports no conflict at position 0.
pub proof fn law_next_index_stays_positive<S: Storage, SM: StateMachine>(
    old: RaftNode<S, SM>,
    new: RaftNode<S, SM>,
    follower_id: NodeId,
    resp: AppendEntriesResponse,
    r: bool,
)
    requires
        RaftNode::append_response_effect(old, new, follower_id, resp, r),
        old.state_data matches NodeState::Leader(l) ==> forall|k: NodeId|
            #[trigger] l.next_index@.dom().contains(k) ==> l.next_index@[k] >= 1,
        resp.conflict_index matches Some(c) ==> c >= 1,
        resp.success ==> resp.match_index < u64::MAX,
    ensures
        new.state_data matches NodeState::Leader(l) ==> forall|k: NodeId|
            #[trigger] l.next_index@.dom().contains(k) ==> l.next_index@[k] >= 1,
{
    if resp.term <= old.current_term && old.state_data is Leader && !resp.success {
        let ol = old.state_data->Leader_0;
        if ol.next_index@.dom().contains(follower_id) {
            if resp.conflict_index is Some && resp.conflict_term is Some {
                lemma_last_below_term_bound(
                    old.log_view(),
                    resp.conflict_index->0 as int,
                    resp.conflict_term->0,
                );
            }
        }
    }
}

proof fn lemma_last_below_term_bound(log: Seq<LogEntryView>, k: int, t: u64)
    ensures
        -1 <= last_below_term(log, k, t) < k || (k <= 0 && last_below_term(log, k, t) == -1),
        last_below_term(log, k, t) >= 0 ==> log[last_below_term(log, k, t)].term < t,
    decreases k,
{
    if k > 0 && log[k - 1].term >= t {
        lemma_last_below_term_bound(log, k - 1, t);
    }
}

/// A follower that disagrees with a leader at a position inside its log
/// reports the start of the run of entries of the disagreeing term: a
/// position no later than the leader's, from which on up to the leader's
/// position all its entries carry that term.
pub proof fn law_conflict_index_starts_run(log: Seq<LogEntryView>, prev_log_index: u64)
    requires
        0 < prev_log_index <= log.len(),
    ensures
        1 <= conflict_index_of(log, prev_log_index) <= prev_log_index,
        forall|i: int|
            conflict_index_of(log, prev_log_index) - 1 <= i < prev_log_index ==> (#[trigger] log[i]).term
                == log[prev_log_index - 1].term,
        conflict_index_of(log, prev_log_index) > 1 ==> log[conflict_index_of(
            log,
            prev_log_index,
        ) - 2].term != log[prev_log_index - 1].term,
{
    lemma_run_start_shape(log, prev_log_index as int, log[prev_log_index - 1].term);
}

proof fn lemma_run_start_shape(log: Seq<LogEntryView>, j: int, t: u64)
    requires
        1 <= j <= log.len(),
        log[j - 1].term == t,
    ensures
        1 <= run_start(log, j, t) <= j,
        forall|i: int| run_start(log, j, t) - 1 <= i < j ==> (#[trigger] log[i]).term == t,
        run_start(log, j, t) > 1 ==> log[run_start(log, j, t) - 2].term != t,
    decreases j,
{
    if j > 1 && log[j - 2].term == t {
        lemma_run_start_shape(log, j - 1, t);
    }
}

/// Applying committed entries leaves under the apply key the command of the
/// last entry applied.
pub proof fn law_last_applied_command_is_stored(
    c: Map<Seq<u8>, Seq<u8>>,
    log: Seq<LogEntryView>,
    from: int,
    to: int,
)
    requires
        from < to <= log.len(),
    ensures
        applied_contents(c, log, from, to).dom().contains(apply_key()),
        applied_contents(c, log, from, to)[apply_key()] == log[to - 1].cmd,
{
}

/// A follower's commit index does not move back when its new log still
/// reaches it.
pub proof fn law_follower_commit_monotone(commit_idx: u64, leader_commit: u64, log_len: nat)
    requires
        log_len >= commit_idx,
    ensures
        commit_after_append(commit_idx, leader_commit, log_len) >= commit_idx,
{
}

/// A follower's answer to an append request: it accepts exactly when the
/// request is not stale and its log holds an entry of the leader's previous
/// term at the leader's previous position (or that position is 0). Accepting,
/// it keeps its log up to that position followed by the sent entries (all of
/// its log when none were sent) and reports its whole new log length as
/// matched; refusing, it keeps its log and reports nothing matched. Its
/// answer carries its term, raised to the request's when that is higher.
pub proof fn law_append_answer<S: Storage, SM: StateMachine>(
    old: RaftNode<S, SM>,
    new: RaftNode<S, SM>,
    req: AppendEntriesRequest,
    resp: AppendEntriesResponse,
)
    requires
        append_entries_effect(old, new, req, resp),
        new.log_view().len() <= u64::MAX,
    ensures
        resp.success <==> (req.term >= old.current_term && (req.prev_log_index == 0 || (
        req.prev_log_index <= old.log_view().len() && old.log_view()[req.prev_log_index - 1].term
            == req.prev_log_term))),
        resp.success ==> resp.match_index == new.log_view().len(),
        resp.success && req.entries@.len() == 0 ==> new.log_view() == old.log_view(),
        resp.success && req.entries@.len() > 0 ==> new.log_view() == old.log_view().take(
            req.prev_log_index as int,
        ) + req.entries.deep_view(),
        !resp.success ==> resp.match_index == 0 && new.logs == old.logs,
        new.current_term == (if req.term > old.current_term {
            req.term
        } else {
            old.current_term
        }),
        resp.term == new.current_term,
{
}

/// An accepted append request raises a follower's commit index to the
/// leader's, capped by the length of the follower's new log, when the
/// leader's is higher, and leaves it otherwise: the follower never commits
/// past what the leader has committed.
pub proof fn law_follower_commit_capped_by_leader<S: Storage, SM: StateMachine>(
    old: RaftNode<S, SM>,
    new: RaftNode<S, SM>,
    req: AppendEntriesRequest,
    resp: AppendEntriesResponse,
)
    requires
        append_entries_effect(old, new, req, resp),
        resp.success,
    ensures
        req.leader_commit > old.commit_idx ==> new.commit_idx == (if req.leader_commit
            <= new.log_view().len() {
            req.leader_commit as int
        } else {
            new.log_view().len() as int
        }),
        req.leader_commit > old.commit_idx ==> new.commit_idx <= req.leader_commit
            && new.commit_idx <= new.log_view().len(),
        req.leader_commit <= old.commit_idx ==> new.commit_idx == old.commit_idx,
{
}

/// A node that has not voted in the request's term grants its vote exactly
/// when the request is not stale and the candidate's log is at least as up
/// to date as its own: a higher last term, or the same last term and a last
/// index at least its own (an empty log counts as index 0, term 0). A grant
/// is persisted as a vote for the candidate in the node's term.
pub proof fn law_vote_needs_up_to_date_log<S: Storage, SM: StateMachine>(
    old: RaftNode<S, SM>,
    new: RaftNode<S, SM>,
    req: RequestVoteRequest,
    resp: RequestVoteResponse,
)
    requires
        request_vote_effect(old, new, req, resp),
        req.term > old.current_term || old.storage.stored_voting_state().voted_for is None,
    ensures
        old.log_view().len() > 0 ==> (resp.vote_granted <==> (req.term >= old.current_term && (
        req.last_log_term > old.log_view().last().term || (req.last_log_term
            == old.log_view().last().term && req.last_log_index
            >= old.log_view().last().index)))),
        old.log_view().len() == 0 ==> (resp.vote_granted <==> req.term >= old.current_term),
        resp.vote_granted ==> new.storage.stored_voting_state() == (VotingState {
            current_term: new.current_term,
            voted_for: Some(req.candidate_id.0 as u64),
        }),
        !resp.vote_granted ==> new.storage.stored_voting_state().voted_for
            == old.storage.stored_voting_state().voted_for || req.term > old.current_term,
{
}

/// Every append request a leader builds carries its term, its id and its
/// commit index, and follows on the entry just before the entries it sends.
pub proof fn law_replication_request_carries_commit(
    req: AppendEntriesRequest,
    term: u64,
    leader_id: NodeId,
    log: Seq<LogEntryView>,
    commit: u64,
    next: int,
)
    requires
        is_replication_request(req, term, leader_id, log, commit, next),
    ensures
        req.leader_commit == commit,
        req.term == term,
        req.leader_id == leader_id,
        req.prev_log_index + req.entries.deep_view().len() == log.len(),
        req.entries.deep_view() == log.subrange(req.prev_log_index as int, log.len() as int),
        req.prev_log_index > 0 ==> req.prev_log_term == log[req.prev_log_index - 1].term,
        req.prev_log_index == 0 ==> req.prev_log_term == 0,
        1 <= next <= log.len() ==> req.prev_log_index == next - 1,
        next > log.len() ==> req.prev_log_index == 0,
{
}

proof fn lemma_last_below_term_shape(log: Seq<LogEntryView>, k: int, t: u64)
    requires
        0 <= k <= log.len(),
    ensures
        last_below_term(log, k, t) >= 0 ==> {
            &&& last_below_term(log, k, t) < k
            &&& log[last_below_term(log, k, t)].term < t
            &&& forall|j: int|
                last_below_term(log, k, t) < j < k ==> (#[trigger] log[j]).term >= t
        },
        last_below_term(log, k, t) < 0 ==> forall|j: int| 0 <= j < k ==> (#[trigger] log[j]).term
            >= t,
    decreases k,
{
    if k > 0 && log[k - 1].term >= t {
        lemma_last_below_term_shape(log, k - 1, t);
    }
}

/// A leader told of a conflict at position `ci` (from 1, inside its log)
/// with term `ct` moves the follower's next index to just past the last of
/// its entries before `ci` whose term is below `ct`, so that every entry it
/// will resend from there up to `ci` has a term of at least `ct`; with no
/// such entry, to `ci` itself. A conflict past its log sets the next index to
/// `ci`. Nothing else of its progress changes.
pub proof fn law_backoff_to_last_lower_term<S: Storage, SM: StateMachine>(
    old: RaftNode<S, SM>,
    new: RaftNode<S, SM>,
    follower_id: NodeId,
    resp: AppendEntriesResponse,
    r: bool,
    ci: u64,
    ct: u64,
)
    requires
        RaftNode::append_response_effect(old, new, follower_id, resp, r),
        resp.term <= old.current_term,
        old.state_data is Leader,
        !resp.success,
        old.state_data->Leader_0.next_index@.dom().contains(follower_id),
        resp.conflict_index == Some(ci),
        resp.conflict_term == Some(ct),
    ensures
        !r,
        new.state_data is Leader,
        new.state_data->Leader_0.match_index == old.state_data->Leader_0.match_index,
        new.state_data->Leader_0.next_index@ == old.state_data->Leader_0.next_index@.insert(
            follower_id,
            new.state_data->Leader_0.next_index@[follower_id],
        ),
        ci > old.log_view().len() ==> new.state_data->Leader_0.next_index@[follower_id] == ci,
        ci <= old.log_view().len() && (exists|i: int|
            0 <= i < ci && (#[trigger] old.log_view()[i]).term < ct) ==> {
            let n = new.state_data->Leader_0.next_index@[follower_id];
            &&& 1 <= n <= ci
            &&& old.log_view()[n - 1].term < ct
            &&& forall|j: int| n <= j < ci ==> (#[trigger] old.log_view()[j]).term >= ct
        },
        ci <= old.log_view().len() && !(exists|i: int|
            0 <= i < ci && (#[trigger] old.log_view()[i]).term < ct) ==> new.state_data->Leader_0.next_index@[follower_id] == ci,
{
    let log = old.log_view();
    if ci <= log.len() {
        lemma_last_below_term_shape(log, ci as int, ct);
    }
}

/// A follower that accepts an append request applies exactly up to its new
/// commit index: its last applied index becomes its commit index when that is
/// higher and stays otherwise. With a state machine whose writes succeed, the
/// command of the last newly applied entry is then stored under the apply
/// key; nothing else in the state machine changes either way.
pub proof fn law_follower_applies_up_to_commit<S: Storage, SM: StateMachine>(
    old: RaftNode<S, SM>,
    new: RaftNode<S, SM>,
    req: AppendEntriesRequest,
    resp: AppendEntriesResponse,
)
    requires
        append_entries_effect(old, new, req, resp),
        resp.success,
    ensures
        new.last_applied_idx == (if old.last_applied_idx < new.commit_idx {
            new.commit_idx
        } else {
            old.last_applied_idx
        }),
        new.state_machine.contents().remove(apply_key()) == old.state_machine.contents().remove(
            apply_key(),
        ),
        old.state_machine.reliable() && old.last_applied_idx < new.commit_idx
            && new.commit_idx <= new.log_view().len() ==> {
            &&& new.state_machine.contents().dom().contains(apply_key())
            &&& new.state_machine.contents()[apply_key()] == new.log_view()[new.commit_idx
                - 1].cmd
        },
{
    if old.state_machine.reliable() && old.last_applied_idx < new.commit_idx && new.commit_idx
        <= new.log_view().len() {
        law_last_applied_command_is_stored(
            old.state_machine.contents(),
            new.log_view(),
            old.last_applied_idx as int,
            new.commit_idx as int,
        );
    }
}

/// What a follower reports when it refuses an append request: to a stale
/// request, the leader's own previous position and term; to a request whose
/// previous position lies past its log, the position just after its log and
/// term 0; to one that disagrees inside its log, the start of its run of
/// entries of the disagreeing term (a position no later than the leader's,
/// with every entry from there to the leader's position of that term, and an
/// entry of another term just before it) together with the term found there.
pub proof fn law_refusal_reports_conflict<S: Storage, SM: StateMachine>(
    old: RaftNode<S, SM>,
    new: RaftNode<S, SM>,
    req: AppendEntriesRequest,
    resp: AppendEntriesResponse,
)
    requires
        append_entries_effect(old, new, req, resp),
        !resp.success,
    ensures
        req.term < old.current_term ==> resp.conflict_index == Some(req.prev_log_index)
            && resp.conflict_term == Some(req.prev_log_term),
        req.term >= old.current_term && req.prev_log_index > old.log_view().len()
            ==> resp.conflict_index == Some((old.log_view().len() + 1) as u64)
            && resp.conflict_term == Some(0u64),
        req.term >= old.current_term && 0 < req.prev_log_index <= old.log_view().len() ==> {
            let p = req.prev_log_index as int;
            let t = old.log_view()[p - 1].term;
            &&& t != req.prev_log_term
            &&& resp.conflict_index is Some
            &&& 1 <= resp.conflict_index->0 <= p
            &&& forall|i: int|
                resp.conflict_index->0 - 1 <= i < p ==> (#[trigger] old.log_view()[i]).term == t
            &&& resp.conflict_index->0 > 1 ==> old.log_view()[resp.conflict_index->0 - 2].term
                != t
            &&& resp.conflict_term == Some(t)
        },
{
    let log = old.log_view();
    let p = req.prev_log_index;
    if req.term >= old.current_term && 0 < p <= log.len() {
        lemma_run_start_shape(log, p as int, log[p - 1].term);
    }
}

/// A leader's handling of a follower's answer: a higher term makes it a
/// follower of that term with no vote, and it stops leading; a success
/// records the follower as holding its reported match index and to be sent
/// from the position after it (when that position exists), and never lowers the commit index; a refusal
/// with only a conflict index sends from that index, and one without hints
/// steps the next index back by one, not below 1.
pub proof fn law_leader_records_answer<S: Storage, SM: StateMachine>(
    old: RaftNode<S, SM>,
    new: RaftNode<S, SM>,
    follower_id: NodeId,
    resp: AppendEntriesResponse,
    r: bool,
)
    requires
        RaftNode::append_response_effect(old, new, follower_id, resp, r),
    ensures
        resp.term > old.current_term ==> r && new.current_term == resp.term
            && new.state_data is Follower && new.state_data->Follower_0.voted_for is None,
        resp.term <= old.current_term && old.state_data is Leader ==> !r && new.state_data is Leader
            && new.current_term == old.current_term && new.logs == old.logs,
        resp.term <= old.current_term && old.state_data is Leader && resp.success ==> {
            &&& new.state_data->Leader_0.match_index@[follower_id] == resp.match_index
            &&& resp.match_index < u64::MAX ==> new.state_data->Leader_0.next_index@[follower_id]
                == resp.match_index + 1
            &&& new.commit_idx >= old.commit_idx
        },
        resp.term <= old.current_term && old.state_data is Leader && !resp.success
            && old.state_data->Leader_0.next_index@.dom().contains(follower_id) ==> {
            let n = old.state_data->Leader_0.next_index@[follower_id];
            let m = new.state_data->Leader_0.next_index@[follower_id];
            &&& (resp.conflict_index is Some && resp.conflict_term is None) ==> m
                == resp.conflict_index->0
            &&& resp.conflict_index is None ==> m == (if n > 1 {
                n - 1
            } else {
                n as int
            })
            &&& new.commit_idx == old.commit_idx
        },
{
    if resp.term <= old.current_term && old.state_data is Leader && resp.success {
        let mid = RaftNode::with_state(old, new.state_data);
        if let Some(c) = mid.commit_target() {
            assert(c > mid.commit_idx);
        }
    }
}

/// A node that has already recorded a vote keeps it: it grants a request of
/// its own term only to the candidate it voted for, refuses any other and
/// any stale request, and leaves its recorded vote as it was.
pub proof fn law_recorded_vote_is_kept<S: Storage, SM: StateMachine>(
    old: RaftNode<S, SM>,
    new: RaftNode<S, SM>,
    req: RequestVoteRequest,
    resp: RequestVoteResponse,
    v: u64,
)
    requires
        request_vote_effect(old, new, req, resp),
        req.term <= old.current_term,
        old.storage.stored_voting_state().voted_for == Some(v),
    ensures
        resp.vote_granted <==> (req.term == old.current_term && NodeId(v as u16)
            == req.candidate_id),
        new.storage.stored_voting_state() == old.storage.stored_voting_state(),
        resp.term == old.current_term,
{
}

} // verus!
