# chip

An interpreter for a small language of concurrent guarded commands: processes
that assign to variables and arrays, branch and loop on guards, exchange values
over tuple spaces, asynchronous channels and synchronous channels (including
broadcast and gather), together with validation of programs and of their LTL
properties, and a printer for all of it. The library is written in Verus: every
function in `src/` carries a contract, and Verus proves each one except the
few wrappers around outside crates in `collections` and `perms`, and
`String::from_iter` in `show`, whose contracts are trusted.

## Layout

- `ast` — the syntax of programs, properties and declarations.
- `program` — compiled programs (instructions, layout of the memory, source
  map), states and their mathematical views.
- `semantics` — the meaning of expressions, guards, tuple-space operations and
  steps, as spec functions over the views.
- `interpreter`, `tuple_ops`, `guards`, `step`, `sync`, `run` — the executable
  interpreter, each function proved equal to its spec.
- `free_vars`, `order`, `layout`, `codegen`, `compile` — the compiler from
  commands to instructions, with the layout of variables and arrays.
- `inspect`, `state_text` — initial states and what a state shows.
- `validate` — the check that every name a program or property uses is
  declared.
- `ltl` — translation of properties to formulas over named propositions.
- `show`, `show_program`, `text` — the textual form of expressions, commands,
  declarations and whole programs.
- `collections`, `perms` — the trusted boundary with `indexmap` and
  `itertools`.
- `laws`, `shape`, `halts`, `sync_laws`, `guard_laws`, `code_laws`,
  `validated` — properties that span several functions: what a step keeps,
  when a state is terminated or stuck, what synchronous communication
  changes, how compound guards evaluate, where generated code jumps, and what
  validation guarantees to the compiler.

`app/` holds what needs the parser's error type and the model checker's
formula type: ordinary Rust that converts between those crates and the
library.
