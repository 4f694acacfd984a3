# rclox

A bytecode virtual machine for the Lox language, with extensions (`++`/`--`,
`break`/`continue`, `switch`/`case`/`default`/`yield`, arrays with `array(n)`,
`len(a)` and indexing), written in Verus: the scanner, the single-pass Pratt
compiler, the bytecode chunk and its disassembler, and the virtual machine are
verified against contracts stated over mathematical models.

## Layout

- `src/scanner.rs`, `src/token.rs` — tokens; `lex_token` states the whole lexical
  structure and `Scanner::next_token` is proved to follow it.
- `src/compiler/` — the parser with panic-mode error recovery (`parser.rs`), the
  precedence table (`rules.rs`), per-function compile state (`frame.rs`), expressions
  and statements (`expression.rs`, `statement.rs`), and the growth relations that every
  parsing routine is proved to respect (`growth.rs`): code already written is never
  changed except at pending jumps, statements leave the locals and open loops of the
  function as they found them, and a reported error stays reported. The compiler's
  contracts state this growth and some structure of the code (the layout of `while`
  loops, `break`/`continue` jumps, `++`/`--`, the closure a function declaration loads),
  not the whole code emitted for every construct.
- `src/chunk.rs`, `src/debug.rs` — bytecode, the constant pool with sharing of
  numbers and objects, and a disassembler that gives a structured listing.
- `src/value.rs`, `src/heap.rs`, `src/function.rs`, `src/closure.rs`,
  `src/native.rs` — values (numbers as the bit patterns of doubles), objects and the
  heap, built-in functions.
- `src/vm.rs` — the machine as a step function: each step either carries on or asks
  its driver for the work it cannot do itself (floating-point arithmetic, printing,
  the built-in functions), and takes the driver's reply.
- `src/laws.rs` — properties of the library as a whole: string interning, globals,
  constant sharing, error recovery, number comparison.
- `app/main.rs` — the command-line program: runs a file or a prompt, parses number
  literals, does the floating-point work and prints.
- `tests/` — scanner, bytecode, whole programs and the laws on examples.
