# stck

A small stack-based scripting language, made to be embedded in Rust programs:
a tokenizer, a pre-processor (`include`, `pragma`), a parser, a type checker
for values, closures and generic types, and an interpreter. Every part of the
library is verified with Verus: each public function states what it returns
in its `ensures`, over models of the data (`Seq`, `Map`, views of the
library's types).

## Layout

- `src/token.rs` — the tokenizer, with its meaning (`tok_from`) as a spec.
- `src/preproc.rs` — the pre-processor, with `preproc_from`, and
  `preproc_inc` for tokens that include files.
- `src/parse.rs` — the parser, with `parse_tokens`.
- `src/types.rs`, `src/typeparse.rs`, `src/check.rs`, `src/trc.rs` — types,
  their text form, and checking values against them (`tt_check`,
  `trc_check`).
- `src/builtins.rs` — the builtins; `builtin_spec` is what each one that
  works on the stack and the variables alone does.
- `src/semantics.rs` — what running code means (`run_seq`): values,
  builtins (`%%` with `%v` included), arguments, user functions, closures, `if`,
  `while`, `switch`, `return`, `break`, `!` and included code; and that more
  steps do not change a run that finished.
- `src/runtime.rs` — the interpreter; its contracts tie each run to
  `run_seq`.
- `src/cache.rs`, `src/api.rs`, `src/error.rs`, `src/display.rs` — reading
  sources, the pipeline from text to a run, errors and their texts.
- `src/laws.rs` — properties that relate several operations.
- `src/tools.rs` — the text logic of the source-range reader.
- `app/` — the command-line interpreter: argument handling, files, the
  terminal.
