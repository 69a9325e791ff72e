# hpc

A control plane for HPC filesystem nodes: a daemon that tracks nodes and
dispatches mount/deploy commands, agents that validate and run them, a
diagnostics bundler that reads `/proc`, an I/O benchmark, a monitor, and an
operator CLI.

The library in `src/` holds the logic, verified with Verus:

- `table` — the daemon's node table and its lifecycle (register, metrics,
  heartbeat, reap, remove), with its laws;
- `daemon` — request validation, dispatch decisions, error statuses;
- `agent` — command validation, argv construction, dry-run gating, outcomes,
  `/proc` counters; `session` — the agent's session decisions;
- `diag` — `/proc` parsers, anomaly heuristics, bundle assembly;
- `bench`, `output`, `outcomes`, `monitor`, `proto`, `cli`, `config`,
  `error`, `types`, and `text` (the string and number handling they share).

`app/` is the runtime around it: one `hpc` binary with the daemon (REST API
and reaper), the monitor (Prometheus exporter, `/health`, health-change
logging), the diagnostics bundler, the benchmark runner and the operator
CLI; plus file, process and network I/O, the embedded store, serialization,
and the floating-point health policy.

Not here: the gRPC control plane (the daemon's `ClusterService` and the
agent's session loop) is generated from the protocol definition
`proto/hpc.proto`, which this tree does not include, so there is no agent
binary and no command stream; the daemon therefore reports every node as
not connected. The native I/O shim behind the raw benchmark (`hpc_io.c`,
`hpc_io.h`) is likewise absent. The agent's decisions (`agent`, `session`)
are verified here all the same.
