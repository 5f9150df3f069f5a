# concurrency

Supervision, process groups, pools, mailboxes and cluster supervision for an
actor runtime, written as verified state machines.

Each part of the runtime that makes decisions is a library type or function
with a contract proved by Verus; what only a runtime can do (start actors,
block, sleep, send to actors or over the network) is done by the caller with
the targets or the step the library returns, and its outcome is handed back
to the library.

- `src/` — the verified library:
  - `supervisor`, `static_supervisor`, `dynamic_supervisor`: restart
    intensity, restart strategies, batch restarts, shutdown order.
  - `child_spec`: child specifications, restart and shutdown policies,
    restart backoff.
  - `mailbox`: mailbox capacity accounting and receive priority.
  - `pg`, `typed_pg`, `pool`: process groups (local and federated),
    broadcasts and pool dispatch.
  - `named_registry`: names of local and remote actors.
  - `supervision`, `supervision_broker`, `remote`: supervision envelopes,
    their routing, the per-node broker, remote spawn and remote shutdown.
  - `shutdown_signal`, `observability`, `node`, `node_readiness`, `wire`:
    signal fan-out, supervision counters, node start-up plan and inbound
    message classification.
- `tests/` — scenarios run against the compiled library, including
  supervision runs driven by a small deterministic runtime.
- `app/` — the runtime side: it performs the effects the library decides
  (sending to the targets a broadcast or a pool picks, stop requests and
  waits of a shutdown, retried spawn requests, signal fan-out), blocking
  drivers (condition variables, channels, sleeps), the mailbox receive loop,
  the node start-up sequence, and the broker driver.
