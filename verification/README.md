# crossflow

The verified core of a reactive workflow engine: the data structures and rules
that decide what happens to messages, written in Verus and proved against their
contracts.

## Layout

- `src/` — the verified library.
  - `buffer_storage`, `buffer_laws`, `input`, `any_range`: per-session message
    queues under a retention policy, the input storage that numbers messages,
    ranges for draining, and the laws of pushing and pulling.
  - `debug`, `request`: breakpoints, paused sessions, and the roster of
    requests held back while a session is paused.
  - `gathering`, `flow`, `constraints`, `evaluation`, `inference`, `solving`:
    message type inference for diagrams — naming ports and recording what
    each operation (nodes, sections from builders or templates, scopes,
    streams out, forks, unzips, splits, joins, listeners, buffer accesses,
    transforms, buffers) fixes, connects, redirects and constrains, together
    with the diagram's boundary; gathering the types that reach an operation
    through connections and redirections; evaluating each kind of constraint
    against the message registry; the propagation state that decides which
    port to evaluate next; and the single inference step that evaluates it.
  - `identifier`, `output_port`, `output_ref`: names of ports and outputs.
  - `accessor`, `build_status`, `cancel`, `callback`, `registration`,
    `message_operations`: buffer access checks, build progress, the decisions
    of waiting for buffers and of cancelling a broken operation, and
    registration metadata.
- `app/` — plain Rust around the library: entity ids, standard ranges, the
  serialized forms of library types, the loops that expand scopes and
  template sections and run inference step by step, and the loops and
  effects around waiting for buffers, stepping paused sessions and sending
  inputs.
- `tests/` — tests of the library on concrete values.
