# minirust_compiler

A compiler for a small subset of Rust (functions, `let`, `if`, integers, booleans,
`println!("{}", e)`) that produces RISC-V assembly, written in Verus.

The library in `src/` is verified:

* `parse` reads source text into the abstract syntax (`ast`); it accepts exactly the texts
  of its grammar (`parse::syntax`), and the tree it returns is the one the grammar reads:
  every node spans the text it is made of (inside parentheses, if any), every list holds
  exactly the elements the grammar reads, children stand where the grammar reads them, and
  infix operators group by precedence and to the left.
* `semant` type checks a program and translates it into the intermediate representation
  (`ir`); it accepts exactly the programs its typing rules (`semant::spec`) type, a
  rejection carries the headline and, where the program's text decides them, the labels
  those rules give, and the fragments it builds are exactly those of `semant::trans`.
* `typing` is a second, translation-free type checker with simpler scoping.
* `ir::canonical` rewrites statements into flat lists without nested sequences, keeping
  every label in the order it is run;
  `ir::frame` places temporaries in stack slots that never overlap.
* `codegen` selects RISC-V instructions (`codegen::lower`) and writes the assembly text;
  the code of every function is its label, a prologue, the body and an epilogue of one
  16-byte-aligned frame, and a body that does not name the frame or stack pointer keeps its
  memory accesses inside that frame.
* `pretty` shows trees as indented text.

`app/main.rs` is the command-line driver: `-i <source> [-o <target>] [-v]`. The generated
assembly calls `print_int64` from a small C runtime that is linked in afterwards.
