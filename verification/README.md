# Neruda compiler core, verified

The parts of the Neruda compiler that compute, written in Verus with their
contracts proved: token passes, literal decoding, expression trees by
precedence, constant folding and evaluation, the type store (with
substitution of generic parameters into interned types), declared objects
and name resolution, the import stage, error reports, memory layouts,
basic blocks and dead-code elimination, and the text the IR explorer
shows.

## Layout

- `src/` — the verified library
  - `lexing.rs`, `highlight.rs` — token passes (numbers, comments, character
    and string literals), operator tokens, highlighted ranges
  - `digits.rs`, `literal.rs`, `text.rs` — integers in a radix, numeric,
    character and string literals, diagnostics of literal errors
  - `operator.rs`, `ast.rs`, `parse.rs`, `reduce.rs` — operators, the syntax
    tree, precedence climbing, folding of constant sub-expressions
  - `number.rs`, `const_value.rs` — numeric values and constants: folding,
    comparison, typing, stepping, defaults, printing
  - `primitive.rs`, `types.rs`, `layout.rs` — primitive types, the type
    store (unwrapping, checking, printing), layouts of types and structures
  - `value_eq.rs`, `interning.rs`, `substitute.rs` — equality of constant
    values, adding types to the store only when no equal one is there,
    substituting types for generic parameters
  - `names.rs`, `import_stage.rs`, `report.rs` — the objects of a program,
    the names modules bind and how paths of names are followed, the stage
    that registers modules, objects and imports, and what error reports say
  - `lowering.rs` — checking a constant against its declared type, and the
    scopes of generic parameters (entering, leaving, finding a name)
  - `objects.rs`, `init_state.rs`, `ir.rs` — declared objects, lazily known
    state, lowered functions and dead-code elimination
  - `explorer.rs`, `listing.rs`, `explorer_state.rs` — what the IR
    explorer shows of instructions and lines, the rows, values and source
    lines of a function's listing, and how the explorer's state answers
    what the user does
  - `span.rs`, `fib.rs` — source ranges; the Fibonacci reference functions
- `tests/` — tests of the library on concrete values
- `app/` — a small program around the library: reading float literals and
  timing code compiled by Neruda against the Rust reference
