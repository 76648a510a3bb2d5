# einvoice

Electronic invoices come in many XML formats. Each format is a *spoke*: a TOML
mapping that says which of its elements carry which values of one shared
*canonical hub*. Every spoke reads into the hub and is written from it, so each
pair of formats converts without code of its own.

This crate is the verified core: its functions state in `requires` and `ensures`
what they take and what they give, and Verus proves it. What is not proved are the
few items that call other crates or a part of the standard library that Verus does
not know; each says in its doc comment what it claims of the call.

- `src/text.rs`, `src/ordmap.rs`: texts as sequences of characters, and maps that
  are walked in key order.
- `src/dsl/`: the mapping compiler. It parses mapping files, resolves inheritance,
  synthesizes each spoke's source model, derives the hub, validates, reports on
  coverage, and generates the Rust code of the hub and of each spoke's mappers.
- `src/runtime/`: what the generated mappers call.
- `src/engine/`: what runs around the mappers: the registry of spokes, the
  transformation, loss analysis, source detection, the command line, and the
  server's configuration, memory gate and request steps.
- `tests/`: tests of the compiled library.
- `app/`: the programs around the library: standard streams, files, sockets and
  the async runtime.

Proof functions whose names begin with `law_` state what holds across functions:
that what `check` accepts is what the build accepts, that a hub derived without
complaint holds every mapped key with one type, that every synthesized path
resolves, that reservations never exceed the memory budget and are granted in
order, that nothing is written on an error, and more.
