# Kinetix

Kinetix is a self-hosted proxy for large language models: OpenAI Chat Completions
and Anthropic Messages in, administrator-configured upstreams out, with virtual
keys, account pools, Routes with fallback, and honest accounting.

- `src/` is the decision core, verified with Verus: routing, health, limits,
  attempts, streams, predicates, alerts, metrics, cryptographic plumbing, plugin
  packages and the rules of the admin interface. It performs no I/O.
- `app/` is the server around it: sockets, files, the store and the forms of the
  admin interface.
- `tests/` exercises the library from outside.

Each decision that depends on the outside world is split. The library says what
to ask for, the server asks, and the library decides what follows. Budgets and
rates are doubles: the library carries their bits and compares them exactly, and
the server does the floating-point arithmetic.

Outside crates are called through small wrappers, each with a contract and a
comment that says what is taken on trust.
