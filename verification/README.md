# laya_rust

A verified core for the Laya decision engine: it answers TypeSafe System One requests (a
`state` plus typed `questions`) by scoring option markers with a ModernBERT encoder and a
decision head, and it converts the upstream checkpoint into one self-describing GGUF file.

`src/` is the library, written in Verus and proved:

- `gguf/` reads and writes GGUF files (metadata values, tensor tables, tensor data); the
  laws in `gguf/laws.rs` state what reading gives back of what was written.
- `weights/` checks a model file's metadata and tensor table against the pinned architecture,
  reads tensor values, and converts between single and half precision by bit pattern
  (`weights/half_error.rs` bounds the error of a trip through half precision).
- `tokenizer/` is the byte-level BPE tokenizer with added tokens.
- `request.rs` splits a request into its state and its questions, and writes a non-string
  state or instructions as compact JSON (`json_text.rs`); `systemone.rs` turns them
  into typed questions, renders their options and builds the token sequence each question is
  scored from; `batch.rs` packs sequences into the fewest forward passes that fit a budget
  (`law_fewest_passes`, also stated by `group_by_budget`).
- `convert.rs` turns a checkpoint's configuration, tokenizer and tensors into a model file;
  `loads.rs` proves that the loader accepts the metadata conversion writes.
- `rows.rs`, `scenarios.rs`, `cli.rs`, `paths.rs`, `backend.rs`, `engine.rs`, `arch.rs` hold
  the remaining pure logic of the command line and the backends.

`app/` is the command line around it: argument parsing, files and standard input, JSON in
and out, and the floating-point parts (the CPU forward pass, softmax and answers).

`tests/` exercises the library on concrete values.
