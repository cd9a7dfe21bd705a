# link_session

The session side of a tempo-synchronisation protocol, verified with Verus.

- `src/` is the library: messages and their bytes, the node that answers pings, a
  measurement in progress with its timer, and the sessions that a node knows with
  the rules by which it switches between them. It works on values alone.
- `app/` puts sockets, tasks, a clock and the floating-point fit around it.
- `tests/` runs the library on concrete values.

What is taken on trust stands in `src/duration.rs` (the arithmetic of
`chrono::TimeDelta`) and `src/sync.rs` (the locks of the standard library).
