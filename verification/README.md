# fsm_codegen_c

A C99 code generator for hierarchical finite state machines, written in
Verus. Given a machine description (`src/ir.rs`) and a configuration, it
emits one shared `fsm_hal.h` and, per machine, `<M>_conf.h`, `<M>_impl.h`,
`<M>.h` and `<M>.c`.

Every emitter states, as its postcondition, the exact text it returns; the
pipeline (`emit::emit`) states when it fails, with which error, and which
files and notes it returns otherwise. Emitters read a context through its
view (`CtxView`: the machine, the configuration and the tables by their
views), which the machine, configuration and strategy fix; hence
`law_emit_deterministic`: two runs on the same input give the same files
and notes, or the same error.

Layout:

- `src/ir.rs`: the machine description.
- `src/state_index.rs`, `src/parent_table.rs`, `src/region_layout.rs`:
  the state index, the parent table, the `_active[]` slot layout.
- `src/config.rs`, `src/budget.rs`: configuration and the memory budget.
- `src/expr.rs`, `src/stmt.rs`: expressions, guards and action statements.
- `src/emit/`: one module per emitted part; `emit/mod.rs` holds the
  pipeline, the errors and the laws about the emitted files.
- `src/text.rs`: text helpers (decimal rendering, sorting, searching).
- `app/`: serde and error-trait copies of the configuration and error types.
- `tests/`: executable tests.
