# rust_scratch

A Rust practice workspace whose logic is proved with Verus: text handling and
integer parsing, containers (a hash map, queues, ordered-map queries), builders,
error types and their chains, dispatch strategies, borrow-or-own values,
poll-once state machines, and the state that concurrent programs share.

- `src/` — the verified library, one module per topic. Every function states
  what it returns in `ensures`; properties that span several calls are proof
  functions named `law_*`.
- `tests/` — scenario tests run against the compiled library.
- `app/` — the programs around the library: threads, channels, async
  runtimes, JSON, floating point, `RefCell`/`Rc` and destructor demos.
