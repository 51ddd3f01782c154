# melbi

The verified core of Melbi, a small embeddable expression language: the
parts of its implementation that are pure computation, written in Verus
and proved against their contracts.

Layout of `src/`:

- `types/` — the type representation (`types`, `order`), type variables and
  renaming (`manager`), effects, the constraint bookkeeping of type
  inference (`constraint_set`, `type_class_resolver`), unification
  (`unification/`), conversion from parsed type expressions (`from_parser`),
  the printed form of types (`traits`), and the compact binary encoding of
  types (`encoding/`), with the proof that decoding inverts encoding.
- `vm/` — the bytecode instruction set, the value stack, and the
  interpreter loop of the virtual machine (`runtime`): one step of the
  machine as a spec function, the loop with its `otherwise` handlers, and
  laws about finished runs; the arrays, records and maps that the machine
  builds live in its heap (`heap`).
- `tree/` — syntax trees over pluggable storage.
- `position.rs` — byte offsets to line and column; `values.rs` — string
  literal escaping.

`app/` holds a small program that builds and copies an expression tree with
heap-backed storage, which the verifier does not accept in `src/`, and a
host for the interpreter loop that performs the float instructions the loop
hands back, and calls the embedding program's functions.

`tests/` runs the library on concrete values.
