//! A Raft node and the decisions it takes in each role.

pub mod model;
pub mod follower;
pub mod candidate;
pub mod commit;
pub mod leader;
pub mod laws;

use vstd::prelude::*;
use crate::types::{NodeId, LogEntry, LogEntryView};
use crate::config::Config;
use crate::state::{NodeState, Follower};
use crate::storage::Storage;
use crate::state_machine::StateMachine;
use self::model::{last_log_info, apply_outcome, apply_key, majority_of, election_timeout_ms};

verus! {

/// A Raft node: its identity, its log, its counters, its role, and the
/// storage and state machine it writes to. Messages it must send are handed
/// back to the caller by the functions that decide them.
pub struct RaftNode<S, SM> where S: Storage, SM: StateMachine {
    pub id: NodeId,
    pub config: Config,
    pub peers: Vec<NodeId>,
    pub logs: Vec<LogEntry>,
    pub commit_idx: u64,
    pub last_applied_idx: u64,
    pub last_snapshot_idx: u64,
    pub current_term: u64,
    pub state_data: NodeState,
    pub storage: S,
    pub state_machine: SM,
}

/// Applies the entries at positions `from + 1` through `to` that exist in
/// `logs`, in order, each as the value of the apply key.
fn apply_entries<SM: StateMachine>(sm: &mut SM, logs: &Vec<LogEntry>, from: u64, to: u64)
    ensures
        apply_outcome(
            old(sm).reliable(),
            old(sm).contents(),
            final(sm).contents(),
            logs.deep_view(),
            from as int,
            to as int,
        ),
        final(sm).reliable() == old(sm).reliable(),
{
    let key: [u8; 3] = [107u8, 101u8, 121u8];
    assert(key@ == apply_key());
    let n = logs.len();
    let mut i: u64 = from;
    while i < to
        invariant
            from <= i,
            i <= to || i == from,
            n == logs@.len(),
            sm.reliable() == old(sm).reliable(),
            apply_outcome(
                old(sm).reliable(),
                old(sm).contents(),
                sm.contents(),
                logs.deep_view(),
                from as int,
                i as int,
            ),
            key@ == apply_key(),
        decreases to - i,
    {
        i = i + 1;
        if i <= n as u64 {
            let entry = &logs[(i - 1) as usize];
            let ghost before = sm.contents();
            let res = sm.set(key.as_slice(), entry.cmd.as_slice());
            proof {
                assert(logs.deep_view()[i - 1] == logs@[i - 1]@);
                assert(sm.contents().remove(apply_key()) =~= before.remove(apply_key()));
                if res is Ok {
                    assert(sm.contents()[apply_key()] == logs.deep_view()[i - 1].cmd);
                }
            }
        }
    }
}

impl<S, SM> RaftNode<S, SM> where S: Storage, SM: StateMachine {
    /// `new` is `old` in another role and term, with nothing else changed.
    pub open spec fn same_but_role(old: Self, new: Self) -> bool {
        &&& new.id == old.id
        &&& new.config == old.config
        &&& new.peers == old.peers
        &&& new.logs == old.logs
        &&& new.commit_idx == old.commit_idx
        &&& new.last_applied_idx == old.last_applied_idx
        &&& new.last_snapshot_idx == old.last_snapshot_idx
        &&& new.storage == old.storage
        &&& new.state_machine == old.state_machine
    }

    /// `new` is `old` stepped down to a follower of term `term`, remembering
    /// `voted_for`, with nothing else changed.
    pub open spec fn stepped_down(old: Self, new: Self, term: u64, voted_for: Option<NodeId>) -> bool {
        &&& Self::same_but_role(old, new)
        &&& new.current_term == term
        &&& new.state_data == NodeState::Follower(Follower { voted_for })
    }

    /// The log as a sequence of entry values.
    pub open spec fn log_view(&self) -> Seq<LogEntryView> {
        self.logs.deep_view()
    }

    /// A node with an empty log, counters at 0 and term 0.
    pub fn new(
        id: NodeId,
        config: Config,
        peers: Vec<NodeId>,
        state_data: NodeState,
        storage: S,
        state_machine: SM,
    ) -> (r: Self)
        ensures
            r.id == id,
            r.config == config,
            r.peers == peers,
            r.logs@ == Seq::<LogEntry>::empty(),
            r.commit_idx == 0,
            r.last_applied_idx == 0,
            r.last_snapshot_idx == 0,
            r.current_term == 0,
            r.state_data == state_data,
            r.storage == storage,
            r.state_machine == state_machine,
    {
        RaftNode {
            id,
            config,
            peers,
            logs: Vec::new(),
            commit_idx: 0,
            last_applied_idx: 0,
            last_snapshot_idx: 0,
            current_term: 0,
            state_data,
            storage,
            state_machine,
        }
    }

    /// Index and term of the last log entry, `(0, 0)` for an empty log.
    pub fn get_last_log_info(&self) -> (r: (u64, u64))
        ensures
            r == last_log_info(self.log_view()),
    {
        if self.logs.len() == 0 {
            (0, 0)
        } else {
            let last_entry = &self.logs[self.logs.len() - 1];
            (last_entry.index, last_entry.term)
        }
    }

    /// Applies the committed entries not yet applied, in order, and persists
    /// the new last applied index.
    pub fn apply_committed_entries(&mut self)
        ensures
            final(self).last_applied_idx == (if old(self).last_applied_idx < old(self).commit_idx {
                old(self).commit_idx
            } else {
                old(self).last_applied_idx
            }),
            final(self).storage.stored_last_applied_idx() == final(self).last_applied_idx,
            final(self).storage.stored_voting_state() == old(self).storage.stored_voting_state(),
            final(self).storage.stored_commit_idx() == old(self).storage.stored_commit_idx(),
            final(self).storage.stored_log() == old(self).storage.stored_log(),
            apply_outcome(
                old(self).state_machine.reliable(),
                old(self).state_machine.contents(),
                final(self).state_machine.contents(),
                old(self).log_view(),
                old(self).last_applied_idx as int,
                final(self).last_applied_idx as int,
            ),
            final(self).state_machine.reliable() == old(self).state_machine.reliable(),
            final(self).id == old(self).id,
            final(self).config == old(self).config,
            final(self).peers == old(self).peers,
            final(self).logs == old(self).logs,
            final(self).commit_idx == old(self).commit_idx,
            final(self).last_snapshot_idx == old(self).last_snapshot_idx,
            final(self).current_term == old(self).current_term,
            final(self).state_data == old(self).state_data,
    {
        let from = self.last_applied_idx;
        let to = if self.last_applied_idx < self.commit_idx {
            self.commit_idx
        } else {
            self.last_applied_idx
        };
        apply_entries(&mut self.state_machine, &self.logs, from, to);
        self.last_applied_idx = to;
        self.storage.persist_last_applied_idx(self.last_applied_idx);
    }

    /// The votes needed to win an election among the peers and this node.
    pub fn election_majority(&self) -> (r: usize)
        requires
            self.peers@.len() < usize::MAX,
        ensures
            r == majority_of(self.peers@.len()),
    {
        (self.peers.len() + 1) / 2 + 1
    }

    /// A randomized election timeout, in milliseconds, between the configured
    /// timeout and (almost) twice it, drawn from the clock.
    pub fn generate_election_timeout(&self) -> (r: u64)
        requires
            self.config.election_timeout * 999 <= u64::MAX,
        ensures
            exists|seed: u64| r == election_timeout_ms(self.config.election_timeout, seed),
            self.config.election_timeout <= r,
            r <= self.config.election_timeout + self.config.election_timeout * 999 / 1000,
    {
        let seed = clock_nanos();
        let r = election_timeout_from_seed(self.config.election_timeout, seed);
        proof {
            let base = self.config.election_timeout;
            assert((seed % 1000) * base <= 999 * base) by (nonlinear_arith)
                requires
                    seed % 1000 <= 999,
            ;
            assert(((seed % 1000) * base) / 1000 <= (999 * base) / 1000) by (nonlinear_arith)
                requires
                    (seed % 1000) * base <= 999 * base,
            ;
        }
        r
    }
}

/// The election timeout, in milliseconds, for a base timeout and a random
/// seed: the base plus `seed % 1000` thousandths of the base.
pub fn election_timeout_from_seed(base: u64, seed: u64) -> (r: u64)
    requires
        base * 999 <= u64::MAX,
    ensures
        r == election_timeout_ms(base, seed),
{
    let random_factor = seed % 1000;
    proof {
        assert(random_factor * base <= 999 * base) by (nonlinear_arith)
            requires
                random_factor <= 999,
        ;
        assert((random_factor * base) / 1000 <= base) by (nonlinear_arith)
            requires
                random_factor * base <= 999 * base,
        ;
    }
    base + (random_factor * base / 1000)
}

/// The system clock's time.
#[verifier::external_type_specification]
#[verifier::external_body]
pub struct ExSystemTime(std::time::SystemTime);

/// Reads the system clock: calls `std::time::SystemTime::now`. Nothing is
/// promised of the value, which depends on the time.
#[verifier::external_body]
fn system_time_now() -> std::time::SystemTime {
    std::time::SystemTime::now()
}

/// The time elapsed from the Unix epoch to `t`, or `None` when `t` lies
/// before the epoch: calls `SystemTime::duration_since` with
/// `std::time::UNIX_EPOCH`. Nothing is promised of the duration.
#[verifier::external_body]
fn duration_since_epoch(t: &std::time::SystemTime) -> Option<std::time::Duration> {
    match t.duration_since(std::time::UNIX_EPOCH) {
        Ok(d) => Some(d),
        Err(_) => None,
    }
}

/// The whole nanoseconds of `d`: calls `Duration::as_nanos`. Nothing is
/// promised of the value.
#[verifier::external_body]
fn duration_as_nanos(d: &std::time::Duration) -> u128 {
    d.as_nanos()
}

/// Nanoseconds since the Unix epoch by the system clock, truncated to 64
/// bits, or 0 when the clock reads before the epoch.
fn clock_nanos() -> u64 {
    match duration_since_epoch(&system_time_now()) {
        Some(d) => #[verifier::truncate] (duration_as_nanos(&d) as u64),
        None => 0,
    }
}

} // verus!
