# forwarder

Forwarding of verified transaction packets. Each batch of packets goes to the block engine at once
and to the validator after a fixed delay. While validator protection is on, only those packets go
to the block engine that come from a cluster node whose validator leads a slot near the current
one, or that the operator named.

- `src/` is the library, verified with Verus: the decisions of a forwarder thread (`worker`), the
  filter in front of the block engine (`protection`, `validators`, `clusters`), and the metrics
  (`metrics`). `worker_laws` and `protection_laws` state what holds over whole runs.
- `app/` runs the threads: channels, clocks, locks and the metrics agent.
- `tests/` runs the library on concrete values.

What is trusted: the walk over a `dashmap::DashMap` (`clusters`), reads of a `std::sync::RwLock`
(`locks`), the clone of an `Arc` (`packet`) and the capacity of a `VecDeque` (`worker`).
