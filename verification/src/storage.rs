//! Durable storage of a node's voting state, counters and log.

use vstd::prelude::*;
use crate::types::{LogEntry, LogEntryView, clone_log};

verus! {

/// The term a node is in and the candidate it voted for in that term.
#[derive(Debug, Clone, Copy, PartialEq, Eq, Structural)]
pub struct VotingState {
    pub current_term: u64,
    pub voted_for: Option<u64>,
}

/// Durable storage of a node.
pub trait Storage {
    /// The voting state that was last persisted.
    spec fn stored_voting_state(&self) -> VotingState;

    /// The commit index that was last persisted.
    spec fn stored_commit_idx(&self) -> u64;

    /// The last applied index that was last persisted.
    spec fn stored_last_applied_idx(&self) -> u64;

    /// The stored log entries, in the order in which they are loaded.
    spec fn stored_log(&self) -> Seq<LogEntryView>;

    fn persist_voting_state(&mut self, state: &VotingState)
        ensures
            final(self).stored_voting_state() == *state,
            final(self).stored_commit_idx() == old(self).stored_commit_idx(),
            final(self).stored_last_applied_idx() == old(self).stored_last_applied_idx(),
            final(self).stored_log() == old(self).stored_log(),
    ;

    fn load_voting_state(&self) -> (r: VotingState)
        ensures
            r == self.stored_voting_state(),
    ;

    fn persist_commit_idx(&mut self, commit_idx: u64)
        ensures
            final(self).stored_commit_idx() == commit_idx,
            final(self).stored_voting_state() == old(self).stored_voting_state(),
            final(self).stored_last_applied_idx() == old(self).stored_last_applied_idx(),
            final(self).stored_log() == old(self).stored_log(),
    ;

    fn persist_last_applied_idx(&mut self, last_applied_idx: u64)
        ensures
            final(self).stored_last_applied_idx() == last_applied_idx,
            final(self).stored_voting_state() == old(self).stored_voting_state(),
            final(self).stored_commit_idx() == old(self).stored_commit_idx(),
            final(self).stored_log() == old(self).stored_log(),
    ;

    /// Stores the given entries: each of them is stored afterwards, and
    /// nothing is stored but them and what was stored before.
    fn append_log_entries(&mut self, logs: Vec<LogEntry>)
        ensures
            forall|i: int|
                0 <= i < logs@.len() ==> final(self).stored_log().contains(#[trigger] logs@[i]@),
            forall|e: LogEntryView| #[trigger]
                final(self).stored_log().contains(e) ==> old(self).stored_log().contains(e) || exists|
                    i: int,
                | 0 <= i < logs@.len() && logs@[i]@ == e,
            final(self).stored_voting_state() == old(self).stored_voting_state(),
            final(self).stored_commit_idx() == old(self).stored_commit_idx(),
            final(self).stored_last_applied_idx() == old(self).stored_last_applied_idx(),
    ;

    fn load_log_entries(&self) -> (r: Vec<LogEntry>)
        ensures
            r.deep_view() == self.stored_log(),
    ;

    /// Truncates log entries from index idx to resolve conflicts: exactly the
    /// stored entries with a smaller index stay.
    fn truncate_from(&mut self, idx: u64)
        ensures
            forall|e: LogEntryView|
                #[trigger] final(self).stored_log().contains(e) <==> (old(self).stored_log().contains(
                    e,
                ) && e.index < idx),
            final(self).stored_voting_state() == old(self).stored_voting_state(),
            final(self).stored_commit_idx() == old(self).stored_commit_idx(),
            final(self).stored_last_applied_idx() == old(self).stored_last_applied_idx(),
    ;

    fn snapshot_state(&self);

    fn recover_state(&mut self)
        ensures
            final(self).stored_voting_state() == old(self).stored_voting_state(),
            final(self).stored_commit_idx() == old(self).stored_commit_idx(),
            final(self).stored_last_applied_idx() == old(self).stored_last_applied_idx(),
            final(self).stored_log() == old(self).stored_log(),
    ;
}

/// Storage held in memory, for tests.
#[derive(Debug)]
pub struct MockStorage {
    voting_state: VotingState,
    logs: Vec<LogEntry>,
    commit_idx: u64,
    last_applied_idx: u64,
}

/// The entries of `log` whose index is below `idx`, in order.
pub open spec fn entries_below(log: Seq<LogEntryView>, idx: u64) -> Seq<LogEntryView> {
    log.filter(|e: LogEntryView| e.index < idx)
}

impl MockStorage {
    /// Empty storage: term 0, no vote, no entries, counters at 0.
    pub fn new() -> (r: MockStorage)
        ensures
            r.stored_voting_state() == (VotingState { current_term: 0, voted_for: None }),
            r.stored_log() == Seq::<LogEntryView>::empty(),
            r.stored_commit_idx() == 0,
            r.stored_last_applied_idx() == 0,
    {
        let r = MockStorage {
            voting_state: VotingState { current_term: 0, voted_for: None },
            logs: Vec::new(),
            commit_idx: 0,
            last_applied_idx: 0,
        };
        assert(r.logs.deep_view() =~= Seq::<LogEntryView>::empty());
        r
    }

    /// The stored voting state.
    pub fn get_voting_state(&self) -> (r: VotingState)
        ensures
            r == self.stored_voting_state(),
    {
        self.voting_state
    }

    /// The stored log.
    pub fn get_logs(&self) -> (r: Vec<LogEntry>)
        ensures
            r.deep_view() == self.stored_log(),
    {
        clone_log(&self.logs)
    }

    /// The stored commit index.
    pub fn get_commit_idx(&self) -> (r: u64)
        ensures
            r == self.stored_commit_idx(),
    {
        self.commit_idx
    }

    /// The stored last applied index.
    pub fn get_last_applied_idx(&self) -> (r: u64)
        ensures
            r == self.stored_last_applied_idx(),
    {
        self.last_applied_idx
    }
}

impl Storage for MockStorage {
    closed spec fn stored_voting_state(&self) -> VotingState {
        self.voting_state
    }

    closed spec fn stored_commit_idx(&self) -> u64 {
        self.commit_idx
    }

    closed spec fn stored_last_applied_idx(&self) -> u64 {
        self.last_applied_idx
    }

    closed spec fn stored_log(&self) -> Seq<LogEntryView> {
        self.logs.deep_view()
    }

    fn persist_voting_state(&mut self, state: &VotingState) {
        self.voting_state = *state;
    }

    fn load_voting_state(&self) -> (r: VotingState) {
        self.voting_state
    }

    fn persist_commit_idx(&mut self, commit_idx: u64) {
        self.commit_idx = commit_idx;
    }

    fn persist_last_applied_idx(&mut self, last_applied_idx: u64) {
        self.last_applied_idx = last_applied_idx;
    }

    /// The stored log becomes exactly `logs`.
    fn append_log_entries(&mut self, logs: Vec<LogEntry>)
        ensures
            final(self).stored_log() == logs.deep_view(),
    {
        self.logs = logs;
        assert forall|i: int| 0 <= i < self.logs@.len() implies self.stored_log().contains(
            #[trigger] self.logs@[i]@,
        ) by {
            assert(self.stored_log()[i] == self.logs@[i]@);
        }
        assert forall|e: LogEntryView| #[trigger] self.stored_log().contains(e) implies exists|
            i: int,
        | 0 <= i < self.logs@.len() && self.logs@[i]@ == e by {
            let i = choose|i: int| 0 <= i < self.stored_log().len() && self.stored_log()[i] == e;
            assert(self.logs@[i]@ == e);
        }
    }

    fn load_log_entries(&self) -> (r: Vec<LogEntry>) {
        clone_log(&self.logs)
    }

    /// Keeps the stored entries whose index is below `idx`, in order.
    fn truncate_from(&mut self, idx: u64)
        ensures
            final(self).stored_log() == entries_below(old(self).stored_log(), idx),
    {
        let mut kept: Vec<LogEntry> = Vec::new();
        let n = self.logs.len();
        let ghost old_log = self.logs.deep_view();
        for i in 0..n
            invariant
                n == self.logs@.len(),
                old_log == self.logs.deep_view(),
                kept.deep_view() == entries_below(old_log.take(i as int), idx),
        {
            proof {
                reveal(Seq::filter);
                assert(old_log.take(i + 1).drop_last() =~= old_log.take(i as int));
                assert(old_log.take(i + 1).last() == old_log[i as int]);
            }
            if self.logs[i].index < idx {
                kept.push(self.logs[i].clone());
                assert(kept.deep_view() =~= entries_below(old_log.take(i as int), idx).push(
                    old_log[i as int],
                ));
            }
            assert(kept.deep_view() =~= entries_below(old_log.take(i + 1), idx));
        }
        assert(old_log.take(n as int) =~= old_log);
        self.logs = kept;
        assert forall|e: LogEntryView|
            #[trigger] self.stored_log().contains(e) <==> (old_log.contains(e) && e.index < idx) by {
            let pred = |e: LogEntryView| e.index < idx;
            if self.stored_log().contains(e) {
                old_log.lemma_filter_contains_rev(pred, e);
                let k = choose|k: int| 0 <= k < old_log.filter(pred).len() && old_log.filter(pred)[k] == e;
                old_log.lemma_filter_pred(pred, k);
            }
            if old_log.contains(e) && e.index < idx {
                let k = choose|k: int| 0 <= k < old_log.len() && old_log[k] == e;
                old_log.lemma_filter_contains(pred, k);
            }
        }
    }

    fn snapshot_state(&self) {
    }

    fn recover_state(&mut self) {
    }
}

} // verus!
