# cmdtools

Small text tools — `catr`, `echor`, `findr`, `headr`, `headr-old`, `uniqr`
and `wcr` — with their logic written in Verus and proved against contracts.

- `src/` is the verified library: one module per tool, plus `text` for the
  character-level helpers they share (whitespace, decimal rendering and
  parsing, padding, trimming). Each module states in `requires`/`ensures`
  what its functions return, and proves the laws of its tool (for instance
  that `uniqr`'s runs are a run-length encoding of the input, or that
  `headr -n -K` shows every line but the last K).
- `app/` is the program around it: command-line parsing with `clap`, opening
  and reading files, and printing. The tool is chosen by the name the program
  is run under, or by its first argument (`app wcr -l file.txt`).
- `tests/` runs the library on concrete inputs.
