# compiler

A small C compiler in Rust, verified with Verus. It follows the early chapters
of *Writing a C Compiler*: programs are one function
`int name(void) { return expr; }` whose expression is built from decimal
constants, `~`, unary `-`, parentheses and the binary operators `+ - * / %`.

Layout:

- `src/` — the verified library, one module per stage: `lexer` (text to
  tokens), `parser` (tokens to syntax tree, by precedence climbing), `tacky`
  (three-address instructions), `codegen` (x86-64 instructions with stack
  slots), `emit` (AT&T assembly text); `util` (decimal numerals, temporary
  names), `driver` (which stage a command line asks for), and `lib.rs`
  (`compile`, which runs the stages). Every public function has a contract
  over a mathematical specification of its stage.
- `src/laws.rs`, `src/codegen_laws.rs` — properties proved over those
  specifications: lexing and parsing read back what is printed, parsing
  respects precedence and associativity, lowering preserves the value of the
  expression, generated code has no pseudo-registers, only operand forms that
  x86-64 accepts, consistent stack slots inside its frame.
- `src/lex_laws.rs` — lexing a text line by line: lexing `a`, a newline and
  `b` gives the lexemes of `a` then those of `b`, when `a` opens no block comment.
- `src/machine.rs` — a model of the generated instructions running on a
  machine whose registers and stack slots hold integers, exactly or wrapped
  around at a width (such as the 32 bits of `movl` and `addl`); the proof that
  each three-address instruction is translated faithfully, that rewriting an
  instruction into forms x86-64 accepts keeps its meaning, and that the code
  generated for `return e;` returns the value of `e` (where `e` has one: no
  division by zero) from any starting state, under the same arithmetic.
- `app/` — the command-line program: argument parsing, running `gcc` to
  preprocess and assemble, reading and writing files, logging.
- `tests/` — tests of the library.
