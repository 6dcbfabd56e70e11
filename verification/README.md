# learn_cli

A game for learning the command line. The player works through levels inside a custom Bash
shell; each level asks for a command to be run, a file to be written or a directory to be
filled, and the game checks the result, scores the run and keeps the best results.

- `src/` is the verified library: the level data and every change made to it (choosing,
  finishing, restarting and advancing levels), the checks that decide whether a level is
  complete from what was observed on disk or in a command's output, ranks, menus and
  listings, and the texts sent to the shell. Decimal numbers are written and read back with
  proofs that they agree.
- `app/` is the program around it: the command line, the JSON data file, the terminal menu,
  running commands and reading files, and the floating-point timing and score.
- `tests/` runs the library on concrete values.
