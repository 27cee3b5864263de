# nexus

A compiler for a small block-structured teaching language (blocks, `int`,
`string` and `boolean` variables, assignment, `print`, `while`, `if`,
one-digit addition and `==`/`!=` comparisons; each program ends with `$`),
with code generation for programs that pass semantic analysis: a 256-byte
6502 image (none when the program does not fit) or RISC-V assembly.

- `src/` is the compiler, verified with Verus: the lexer, the parser (the
  concrete syntax tree as a sequence of building steps), syntax trees,
  AST generation, the symbol table and semantic analysis, both code
  generators, and `compile`, which takes every program of a source through
  every stage its earlier stages allow. `code_image` describes, step by
  step, what the 6502 generator emits; the RISC-V generator's description
  sits beside it in its own module.
- `tests/` runs the compiler on sample programs.
- `app/` is the browser front end: buttons, sample programs, the log area,
  and the displays of trees, symbol tables and generated code.
