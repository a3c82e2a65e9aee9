# sed command-line front end

The verified library (`src/`) holds the command-line logic of the stream
editor:

- `args`: the rewriting of `-iSUFFIX` into `-i=SUFFIX` ahead of option
  parsing, with its laws (only attached in-place suffixes before `--`
  change; the rewriting is idempotent).
- `command_line`: the parsed command line as plain values, and the usage
  error.
- `scripts`: the scripts (`-e`, `-f` or the first positional argument) in
  command-line order, by a verified stable sort on argument indices, and the
  input files, standard input when none is given.
- `context`: the processing context built from the option flags.

`app/` declares the options to clap, turns clap's matches into a
`CommandLine`, and hands the result to the caller's script executor.
