# Xore compiler

A compiler for the Xore language to x86_64 and RISC-V64 assembly, written in
Verus: the compiler's logic is a library whose functions carry contracts that
Verus proves.

## Layout

- `src/` — the verified library:
  - `lexer`, `parser`, `ast` — tokens, the syntax tree and the recursive-descent
    parser, each stated against a mathematical model of the source text;
  - `checker` — the semantic checker (types of expressions, scopes, calls);
  - `numlit` — integer literals and their types;
  - `ir`, `lowering`, `lower_model` — the intermediate representation, the
    translation of the syntax tree into it, and the model of that
    translation (the exact code, values and errors) that its contracts use;
  - `optimize` — constant and branch folding, store-to-load forwarding, dead
    code elimination and peephole clean-ups, run to a fixpoint;
  - `regalloc` — linear-scan register allocation over live ranges;
  - `emit`, `codegen_x86_64`, `codegen_riscv64` — assembly text for both
    targets;
  - `module` — loading source files and merging a file with its includes
    (a state machine whose file reads are the caller's);
  - `link` — the targets and the assembler/linker drivers to look for;
  - `text` — decimal and debug forms of text.
- `app/` — the `xore` command: arguments, file I/O, floating-point literal
  values, the IR listing, and running the system assembler and linker.
- `tests/` — tests of the library on concrete programs.
