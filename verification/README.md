# neo_decompiler

A verified library for analysing Neo N3 smart-contract bytecode.

- `common` — opcodes, instructions and operands, configuration and errors.
- `engine` — the instruction decoder, the stack-to-IR lifter, the IR, the
  syscall signature database, and the analysis engine's type parsing,
  effect, storage-pattern, propagation and warning passes.
- `cfg` — basic blocks, the control-flow graph with reachability and
  traversal orders, its DOT rendering, and the builder that splits an
  instruction stream into blocks and routes control through `try`/`finally`
  handlers; and the fidelity report of method-body lowering.
- `contract` — NEF files, manifests, interop service names and arities, and
  native contracts.
- `analysis` — the type and effect vocabulary, contract pattern
  identification, slot type recovery and slot cross-references.
- `text` — verified string helpers the other modules share.

Every function in `src/` carries a contract checked by Verus, except three
small trusted wrappers whose contracts Verus takes on trust: `push_char`
(over `String::push`), `to_uppercase` (over `str::to_uppercase`) and
`hex_decode` (over `hex::decode`). Public proof functions state the laws
relating the functions. `app/` holds serializable forms of the
analysis reports.
