# rustis

The protocol logic of a Redis client, written in Verus: every function in
`src/` carries a contract, proved by the verifier except for five small
trusted wrappers around outside calls (`atoi` for decimal slots and ports,
`crc16` for hash slots, `rand` for jitter and random nodes, and std's strict
and lossy UTF-8 decoding), whose contracts are taken on trust.

What is covered:

- **Commands and replies** — `command` (commands, their kind, their keys),
  `reply` (RESP3 frames), `message` (wire framing and byte charges),
  `command_args` / `command_options` (command options).
- **Connection bookkeeping** — `reply_mode` and `cluster_reply_mode`
  (`CLIENT REPLY ON|OFF|SKIP`), `connection_mode` (`MONITOR` streams),
  `connection_state` (what a reconnection replays), `message_queue`
  (the send and receive queues and their byte budget), `network_handler`
  (admission of messages and routing of replies), `reconnection` and
  `master_watch` (backoff).
- **Errors** — `error` and `redis_error` (server error codes, redirections),
  `pub_sub` (push frames).
- **Cluster routing** — `hash_slot`, `cluster_topology` (sorted nodes and slot
  ranges, replica round-robin), `cluster_routing` (slices per slot, per-shard
  commands), `cluster_connection` (retry costs per batch, node choice,
  partial redirections, the read loop's steps), `cluster_request` (turning shard replies into one
  answer under each response policy).

`app/` holds what the verifier does not see: error display, the serde forms
of command results, and the clock.

The tests under `tests/` exercise the library on concrete values.
