//! The messages that Raft nodes exchange.

use vstd::prelude::*;
use crate::types::{NodeId, LogEntry};

verus! {

/// A message together with its sender and its addressee.
#[derive(Debug)]
pub struct MessageEnvelope {
    pub to: NodeId,
    pub from: NodeId,
    pub message: RpcMessage,
}

/// The remote procedure calls of the protocol and their replies.
#[derive(Debug)]
pub enum RpcMessage {
    Ping(String),
    AppendEntries(AppendEntriesRequest),
    RequestVote(RequestVoteRequest),
    RequestVoteResponse(RequestVoteResponse),
    AppendEntriesResponse(AppendEntriesResponse),
}

/// Sent by a leader to replicate entries; with no entries it is a heartbeat.
#[derive(Debug)]
pub struct AppendEntriesRequest {
    pub term: u64,
    pub leader_id: NodeId,
    pub prev_log_index: u64,
    pub prev_log_term: u64,
    pub entries: Vec<LogEntry>,
    pub leader_commit: u64,
}

/// A follower's answer to an `AppendEntriesRequest`.
#[derive(Debug, Clone, Copy, PartialEq, Eq, Structural)]
pub struct AppendEntriesResponse {
    pub term: u64,
    pub success: bool,
    pub match_index: u64,
    pub conflict_index: Option<u64>,
    pub conflict_term: Option<u64>,
}

/// Sent by a candidate to ask for a vote.
#[derive(Debug, Clone, Copy, PartialEq, Eq, Structural)]
pub struct RequestVoteRequest {
    pub term: u64,
    pub candidate_id: NodeId,
    pub last_log_index: u64,
    pub last_log_term: u64,
}

/// The answer to a `RequestVoteRequest`.
#[derive(Debug, Clone, Copy, PartialEq, Eq, Structural)]
pub struct RequestVoteResponse {
    pub term: u64,
    pub vote_granted: bool,
}

} // verus!
