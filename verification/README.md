# raft_node

A Raft consensus node whose decisions are verified with Verus.

- `src/` is the verified library. `types` (node identifiers, log entries and
  their byte encoding), `message` (the RPCs), `config`, `state` (roles and the
  leader's per-peer progress), `storage` and `state_machine` (the traits a
  node writes to, with in-memory implementations), and `raft_node`, where a
  node handles each message and timer event and returns the messages it must
  send. `raft_node::model` states the decisions over mathematical values and
  `raft_node::laws` proves properties that span them: a follower that accepts
  a leader's replication request ends with the leader's log, a node grants at
  most one vote per term, two majorities overlap, and the commit index a
  leader chooses is held by a majority.
- `app/` runs nodes: an in-process transport over tokio channels, the timers
  and the role loops that feed events to the library, and the bincode and
  `Bytes` forms of persisted values.
- `tests/` exercises the library on concrete scenarios.
