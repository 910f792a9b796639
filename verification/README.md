# netfyr_cli

The logic of the `netfyr` command line: loading and checking policies, planning
and reporting an apply or a revert, querying states, showing policies, listing
the journal and diagnosing what keeps a machine from its policies. The library
under `src/` is written in Verus. Every function there has a contract that says
what it returns, and Verus proves it.

## Layout

- `src/lib.rs`: the commands, colour settings.
- `src/text.rs`, `src/styled.rs`, `src/json.rs`, `src/flat.rs`, `src/time.rs`:
  texts, styled output, JSON values, flattened rows, times.
- `src/journal.rs`, `src/runtime.rs`: the data that the commands read.
- `src/apply.rs`, `src/revert.rs`, `src/query.rs`, `src/show.rs`,
  `src/history.rs`, `src/diagnose.rs`: one module per command, with submodules
  for what they print.
- `app/`: the program round the library. It parses arguments, reads files and the
  journal, talks to the daemon and the kernel, and prints what the library
  returns.
- `tests/`: tests that run the library from outside.

## What is proved, and what is taken on trust

A printed text is modelled as a sequence of spans, each with a style. Contracts
fix the spans exactly; the text that comes out is a rendering of them, with each
style on or off, since colours depend on the terminal.

What comes from another crate stands behind a small wrapper whose contract is
taken on trust. These are the wrappers around `colored`, `serde_json`,
`serde_yaml`, `indexmap`, `chrono` and `terminal_size`, and two around std's
`Debug` for strings and `to_lowercase`. The doc comment of each says what is
claimed of the outside function.
