# tcap_bench

Benchmarks for a capability-based remote invocation service, with their
decision logic verified by Verus.

- `src/` — the verified library: the step plans the benchmark handlers and
  clients follow (`plan`, `star`, `chain`, `facever`), the invocation counter
  of the chain handlers and the depth-to-steps rule, the throughput server's
  buffer and the client's checks and rates (`throughput`), the packet-rate
  sampler and the paced flooding plan (`dos`), averages and schedules (`latency`, `grpc`, `starchain`),
  and the keyed table of measurement series with its ordered reports
  (`table`).
- `tests/` — tests of the library on concrete values.
- `app/` — the benchmark programs: argument parsing, the capability service,
  timing, logging and CSV output.
