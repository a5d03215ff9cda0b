//! Mathematical statement of the decisions a node takes, over plain values.

use vstd::prelude::*;
use crate::types::{NodeId, LogEntryView};
use crate::message::{AppendEntriesResponse, RequestVoteResponse};
use crate::storage::VotingState;

verus! {

/// Index and term of the last entry of a log, or `(0, 0)` for an empty log.
pub open spec fn last_log_info(log: Seq<LogEntryView>) -> (u64, u64) {
    if log.len() == 0 {
        (0, 0)
    } else {
        (log.last().index, log.last().term)
    }
}

/// A log agrees with a leader's at `prev_log_index` when that position is 0
/// or holds an entry of term `prev_log_term`.
pub open spec fn log_consistent(log: Seq<LogEntryView>, prev_log_index: u64, prev_log_term: u64) -> bool {
    prev_log_index == 0 || (prev_log_index <= log.len() && log[prev_log_index - 1].term
        == prev_log_term)
}

/// The first position (from 1) of the run of entries of term `t` that ends
/// at position `j`.
pub open spec fn run_start(log: Seq<LogEntryView>, j: int, t: u64) -> int
    decreases j,
{
    if j > 1 && log[j - 2].term == t {
        run_start(log, j - 1, t)
    } else {
        j
    }
}

/// The position a follower reports as the start of its disagreement with a
/// leader whose previous entry is at `prev_log_index`.
pub open spec fn conflict_index_of(log: Seq<LogEntryView>, prev_log_index: u64) -> int {
    if prev_log_index > 0 && prev_log_index <= log.len() {
        run_start(log, prev_log_index as int, log[prev_log_index - 1].term)
    } else if prev_log_index > log.len() {
        log.len() + 1int
    } else {
        1
    }
}

/// The term a follower reports with a conflict position.
pub open spec fn conflict_term_of(log: Seq<LogEntryView>, conflict_index: int) -> u64 {
    if 0 < conflict_index <= log.len() {
        log[conflict_index - 1].term
    } else {
        0
    }
}

/// The log a follower holds after accepting entries that follow position
/// `prev_log_index` of its log.
pub open spec fn log_after_append(
    log: Seq<LogEntryView>,
    prev_log_index: u64,
    entries: Seq<LogEntryView>,
) -> Seq<LogEntryView> {
    if entries.len() == 0 {
        log
    } else {
        log.take(prev_log_index as int) + entries
    }
}

/// The stored entries are exactly the entries of `log`.
pub open spec fn stores_exactly(stored: Seq<LogEntryView>, log: Seq<LogEntryView>) -> bool {
    forall|e: LogEntryView| #[trigger] stored.contains(e) <==> log.contains(e)
}

/// Each entry of `log` carries its own position in the log, counted from 1.
pub open spec fn indexed_in_place(log: Seq<LogEntryView>) -> bool {
    forall|k: int| 0 <= k < log.len() ==> (#[trigger] log[k]).index == k + 1
}

/// A follower's commit index after a request with `leader_commit` has been
/// accepted into a log of `log_len` entries.
pub open spec fn commit_after_append(commit_idx: u64, leader_commit: u64, log_len: nat) -> u64 {
    if leader_commit > commit_idx {
        if leader_commit <= log_len {
            leader_commit
        } else {
            log_len as u64
        }
    } else {
        commit_idx
    }
}

/// The answer of a node of term `term` (already raised to the request's
/// term) and log `log` to an append request.
pub open spec fn append_entries_answer(
    term: u64,
    log: Seq<LogEntryView>,
    req_term: u64,
    prev_log_index: u64,
    prev_log_term: u64,
    entries: Seq<LogEntryView>,
) -> AppendEntriesResponse {
    if req_term < term {
        AppendEntriesResponse {
            term,
            success: false,
            match_index: 0,
            conflict_index: Some(prev_log_index),
            conflict_term: Some(prev_log_term),
        }
    } else if !log_consistent(log, prev_log_index, prev_log_term) {
        let ci = conflict_index_of(log, prev_log_index);
        AppendEntriesResponse {
            term,
            success: false,
            match_index: 0,
            conflict_index: Some(ci as u64),
            conflict_term: Some(conflict_term_of(log, ci)),
        }
    } else {
        AppendEntriesResponse {
            term,
            success: true,
            match_index: log_after_append(log, prev_log_index, entries).len() as u64,
            conflict_index: None,
            conflict_term: None,
        }
    }
}

/// A request that is not stale and agrees with the log is accepted.
pub open spec fn append_accepted(
    term: u64,
    log: Seq<LogEntryView>,
    req_term: u64,
    prev_log_index: u64,
    prev_log_term: u64,
) -> bool {
    req_term >= term && log_consistent(log, prev_log_index, prev_log_term)
}

/// A candidate's log is at least as up to date as the voter's.
pub open spec fn candidate_log_ok(
    voter_last_index: u64,
    voter_last_term: u64,
    cand_last_index: u64,
    cand_last_term: u64,
) -> bool {
    cand_last_term > voter_last_term || (cand_last_term == voter_last_term && cand_last_index
        >= voter_last_index)
}

/// The persisted voting state once a request of term `req_term` has been
/// seen: a higher term clears the vote.
pub open spec fn voting_state_after_term(vs: VotingState, term: u64, req_term: u64) -> VotingState {
    if req_term > term {
        VotingState { current_term: req_term, voted_for: None }
    } else {
        vs
    }
}

/// Whether a node grants its vote. `term` is its term after seeing the
/// request and `voted_for` the vote recorded in storage at that point.
pub open spec fn vote_granted(
    term: u64,
    voted_for: Option<u64>,
    log: Seq<LogEntryView>,
    req_term: u64,
    candidate_id: NodeId,
    cand_last_index: u64,
    cand_last_term: u64,
) -> bool {
    if req_term < term {
        false
    } else if voted_for is Some {
        NodeId(voted_for->0 as u16) == candidate_id
    } else {
        candidate_log_ok(last_log_info(log).0, last_log_info(log).1, cand_last_index, cand_last_term)
    }
}

/// The persisted voting state after a vote decision: a fresh grant records
/// the candidate.
pub open spec fn voting_state_after_vote(
    vs: VotingState,
    term: u64,
    log: Seq<LogEntryView>,
    req_term: u64,
    candidate_id: NodeId,
    cand_last_index: u64,
    cand_last_term: u64,
) -> VotingState {
    if req_term >= term && vs.voted_for is None && candidate_log_ok(
        last_log_info(log).0,
        last_log_info(log).1,
        cand_last_index,
        cand_last_term,
    ) {
        VotingState { current_term: term, voted_for: Some(candidate_id.0 as u64) }
    } else {
        vs
    }
}

/// The answer to a vote request, given the node's term before the request.
pub open spec fn vote_answer(
    vs: VotingState,
    term: u64,
    log: Seq<LogEntryView>,
    req_term: u64,
    candidate_id: NodeId,
    cand_last_index: u64,
    cand_last_term: u64,
) -> RequestVoteResponse {
    let t1 = if req_term > term { req_term } else { term };
    let vs1 = voting_state_after_term(vs, term, req_term);
    RequestVoteResponse {
        term: t1,
        vote_granted: vote_granted(
            t1,
            vs1.voted_for,
            log,
            req_term,
            candidate_id,
            cand_last_index,
            cand_last_term,
        ),
    }
}

/// The votes needed to win among `n_peers` peers and the node itself.
pub open spec fn majority_of(n_peers: nat) -> nat {
    (n_peers + 1) / 2 + 1
}

/// The position of the last entry before position `k` (from 1) whose term
/// is below `t`, counting from 0; -1 if there is none.
pub open spec fn last_below_term(log: Seq<LogEntryView>, k: int, t: u64) -> int
    decreases k,
{
    if k <= 0 {
        -1
    } else if log[k - 1].term < t {
        k - 1
    } else {
        last_below_term(log, k - 1, t)
    }
}

/// The next index a leader tries for a follower that reported a conflict at
/// `conflict_index` with term `conflict_term`: the position (from 1) of the
/// last entry before the conflict whose term is lower, or the conflict index
/// itself when there is none or the conflict lies past the leader's log.
pub open spec fn next_index_after_conflict(
    log: Seq<LogEntryView>,
    conflict_index: u64,
    conflict_term: u64,
) -> u64 {
    if conflict_index > log.len() {
        conflict_index
    } else {
        let i = last_below_term(log, conflict_index as int, conflict_term);
        if i >= 0 {
            (i + 1) as u64
        } else {
            conflict_index
        }
    }
}

/// The next index after a rejection without both conflict hints.
pub open spec fn next_index_after_rejection(
    log: Seq<LogEntryView>,
    next_index: u64,
    conflict_index: Option<u64>,
    conflict_term: Option<u64>,
) -> u64 {
    match (conflict_index, conflict_term) {
        (Some(ci), Some(ct)) => next_index_after_conflict(log, ci, ct),
        (Some(ci), None) => ci,
        _ => if next_index > 1 {
            (next_index - 1) as u64
        } else {
            next_index
        },
    }
}

/// How many of the values are at least `v`.
pub open spec fn count_at_least(vals: Seq<u64>, v: int) -> nat
    decreases vals.len(),
{
    if vals.len() == 0 {
        0
    } else {
        count_at_least(vals.drop_last(), v) + if vals.last() >= v {
            1nat
        } else {
            0nat
        }
    }
}

/// `r` is the `k`-th largest of the values, counted with repetition: at
/// least `k` values reach it and fewer than `k` exceed it.
pub open spec fn is_kth_largest(vals: Seq<u64>, k: nat, r: u64) -> bool {
    count_at_least(vals, r as int) >= k && count_at_least(vals, r + 1) < k
}

/// The `k`-th largest of the values (meaningful when `1 <= k <= vals.len()`).
pub open spec fn kth_largest(vals: Seq<u64>, k: nat) -> u64 {
    choose|r: u64| is_kth_largest(vals, k, r)
}

/// The key under which applied commands are stored.
pub open spec fn apply_key() -> Seq<u8> {
    seq![107u8, 101u8, 121u8]
}

/// The state machine contents after the entries at positions `from + 1`
/// through `to` (those that exist) have been applied in order.
pub open spec fn applied_contents(
    c: Map<Seq<u8>, Seq<u8>>,
    log: Seq<LogEntryView>,
    from: int,
    to: int,
) -> Map<Seq<u8>, Seq<u8>>
    decreases to - from,
{
    if to <= from {
        c
    } else if to <= log.len() {
        applied_contents(c, log, from, to - 1).insert(apply_key(), log[to - 1].cmd)
    } else {
        applied_contents(c, log, from, to - 1)
    }
}

/// What applying the entries at positions `from + 1` through `to` can leave
/// in a state machine that held `c0`: exactly `applied_contents` when every
/// write is known to succeed; in any case nothing changes but the apply key,
/// which keeps its old value or holds the command of one of those entries.
pub open spec fn apply_outcome(
    reliable: bool,
    c0: Map<Seq<u8>, Seq<u8>>,
    c1: Map<Seq<u8>, Seq<u8>>,
    log: Seq<LogEntryView>,
    from: int,
    to: int,
) -> bool {
    &&& reliable ==> c1 == applied_contents(c0, log, from, to)
    &&& c1.remove(apply_key()) == c0.remove(apply_key())
    &&& c1.dom().contains(apply_key()) ==> {
        ||| c0.dom().contains(apply_key()) && c1[apply_key()] == c0[apply_key()]
        ||| exists|i: int| from < i <= to && i <= log.len() && c1[apply_key()] == #[trigger] log[i
            - 1].cmd
    }
}

/// Milliseconds of a randomized election timeout: the base timeout plus
/// `seed % 1000` thousandths of it.
pub open spec fn election_timeout_ms(base: u64, seed: u64) -> int {
    base + ((seed % 1000) * base) / 1000
}

} // verus!
