# sonder

A static analyser and transpiler from well-written C to Rust, verified with Verus.

Pipeline, one module each under `src/`:

- `lexer`, `token_handler`, `parser` (with the grammar stated in `grammar`): C source to a
  syntax tree. Every parsing function is proved equal to its spec function in `grammar`.
- `analyzer` (over `analysis_ctx`, `data_model`, `model`): collects, for each variable, its
  uses and the references held to it and by it. `determine_var_mutability` is proved equal
  to the spec function `analyze`.
- `checker`: lexical borrow checking of those references; the errors it returns are exactly
  `all_errors`.
- `adjuster`: fixes each error by moving lines, sharing the value through
  `Rc<RefCell<..>>`, or falling back on raw pointers.
- `annotater` and `converter`: the annotated tree and the Rust text printed from it.
- `transpiler`: the whole pipeline.
- `engine`: importing C struct and function declarations as Rust `extern` items.
- `cstring`: byte-buffer helpers.

`app/` holds the command-line program and what needs `proc_macro`, `syn`, `strum` or
`lang_c`. The laws of the library are the public proof functions (`lemma_*`).
