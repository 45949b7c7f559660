# celyrion

The verified core of the Celyrion inference engine, written in Verus.

- `src/` is the library. Each module states its behaviour as `requires` /
  `ensures` contracts over mathematical models (`Seq`, `Map`, views of the
  data types) and proves them:
  `types` (identities, digests, errors), `text` (decimal and hexadecimal
  rendering), `protocol`, `machine` (pure state machines, serialized values),
  `cell` (effects, sinks, bounded mailboxes), `sim` (deterministic replay
  with injected faults), `scheduler` (eligibility, stable earliest-deadline
  ranking, bounded batches, cost estimates), `authority` (declared
  transactions with exclusive writes), `state` (bundles kept in key order),
  `memory` (reservations within a byte budget), `registry` (immutable
  revisions), `pipeline`, `gateway` (scopes, bounded replay log), `groups`,
  `transport`, `workers`, `observe` (bounded telemetry, generation health),
  `supervisor` (the generation table) and `runtime`.
- `app/` is the `celyrion` command-line program and the asynchronous,
  I/O-facing parts around the library: config parsing, serving, awaiting
  mailboxes and transports, and the supervisor's serialized table.
- `tests/` exercises the library on concrete values.
