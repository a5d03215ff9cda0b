//! A Raft consensus node: log replication, leader election and commit
//! tracking, written as verified state-transition functions.

pub mod types;
pub mod message;
pub mod config;
pub mod state;
pub mod storage;
pub mod state_machine;
pub mod raft_node;
