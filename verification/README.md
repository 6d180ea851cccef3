# lumelir

Verified core of lumelir, a Lua → MLIR → native compiler toolchain.

`src/` is a Verus library:

- `diag` — byte offset → (line, column), source snippets with a caret,
  and the `path:line:col: <layer> error: <message>` diagnostics.
- `pattern` — the Lua string-pattern runtime linked into compiled
  programs (`string.find` / `string.match`, plain find, prefix test).
- `callabi` — the function-return ABI: return kinds → flat MLIR result
  types and result indices.
- `hir` — the resolved IR the emitter consumes.
- `emit` — pure decisions of the MLIR emitter (comparison predicates,
  tagged-arithmetic eligibility, slot / parameter types, callee return
  shape).
- `strpool` — the module's deduplicated, sorted string-literal pool.
- `mlir` — emitted MLIR operations as plain values (a flat list in text
  order, structured `scf.if` / `scf.while` opened and closed by markers).
- `emitter` — lowering of the scalar core of the language (numbers,
  booleans and nil in local slots, arithmetic / bitwise / comparison
  operators, `not`, short-circuit `and` / `or`, `print`, `if` /
  `elseif` / `else`, `while`, `repeat`, numeric `for`) to those
  operations, with the laws it keeps: short-circuit evaluation, loop
  bounds evaluated once, `~=` against `==`, and SSA numbers defined once
  and in order.
- `runtime` — the code that emitted programs run for their tables and
  memory: the collector-backed allocator, the open-addressing hash part
  (key validity gate, FNV string hash, probe loop, growth with rehash,
  lookup into a tagged slot) and the `__lumelir_next` iterator function.
  Each is specified as the exact operation sequence it appends and the
  SSA numbers it takes; layouts and key policies are parameters.
- `dispatch` — run-time dispatch on tagged values: `tostring` of a
  tagged slot, `t[k] == nil`, and `==` / `~=` with a tagged operand.
- `cli` — where `run` reads its source and how it labels it; where
  `compile` writes its binary.
- `error` — codegen errors and their messages.

`app/` holds the command-line program, the C-ABI bridge entry points
that read Lua string objects and call `pattern`, the printing of the
emitted operations as MLIR text, and the MLIR lowering and linking steps (which spawn `mlir-opt`, `mlir-translate`, `llc` and
`cc`).
