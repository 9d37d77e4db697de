# quiz_arena

The domain rules, request decisions and configuration resolution of the quiz
arena services, written in Verus with their contracts proved.

- `src/` is the verified library:
  - `greet/`: sender names and greeting histories, the greet request as a
    state machine that drives a unit of work (begin, find, add or update,
    commit or roll back, retry on contention), the rows the store keeps, and
    the replies and statuses the RPC answers with.
  - `registry.rs`: quiz tags and user ids.
  - `kernel.rs`: repository failures, how a store failure is classified, the
    RPC status each failure becomes, and the unit of work as a state machine
    (begin, work, then commit or roll back).
  - `config/`: configuration trees, the environment overrides and their
    variable names, and the resolution of one section layer by layer.
  - `telemetry.rs`: OTLP endpoints, which request paths are traced, span
    names, and what an RPC failure records.
  - `modules.rs`: module names, their services, and unclaimed sections.
- `tests/` exercises the library on concrete values.
- `app/` is the greet service binary: configuration files and environment,
  OpenTelemetry export, the SeaORM store, and the HTTP server.
