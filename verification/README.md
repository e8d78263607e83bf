# nata

`nata` edits PDF files page by page (merge, extract, split, render to PNG)
with `qpdf` and `pdftoppm` as backends. This crate is the tool's verified
core, written in Verus; the command line program around it is in `app/`.

## Layout

- `src/` — the library, verified by Verus.
  - `page_spec` parses page specifications (`1,3,5-8`, `all`, `last`, `odd`,
    `even`, `4-last`), resolves them against a page count, checks them
    against each command's rules and writes them in qpdf's range syntax.
  - `split` and `render` build the output plans (file names made unique
    with `-2`, `-3`, ... suffixes) and run those commands; `merge` and
    `extract` run theirs.
  - Each command is a state machine: it asks for outside work through a
    `protocol::Request` (look at a path, run a program, create or move a
    file) and takes the answer as a `protocol::Reply`. Its contract states
    the whole transition relation: which request follows which answer.
  - `strict` decides, from the JSON output of `qpdf --json`, which
    document-level features a PDF holds that page operations cannot keep.
  - `qpdf_runner` and `pdftoppm_runner` build the programs' command lines and
    read what their runs report; `qpdf_detector` and `pdftoppm_detector` find
    the executables (`--qpdf`, then `NATA_QPDF`, then `PATH`).
  - `path_syntax` models how the standard library splits a path into
    components, as Unix and as Windows read it, and states from that what its
    path operations (file stem, extension, parent, join, equality) give; the
    path wrappers promise exactly that.
  - `io_support` holds the path decisions: input and output checks,
    output directory handling and the comparison of outputs with inputs,
    which compares paths by their components.
- `tests/` — tests of the library, including whole command runs against a
  simulated file system.
- `app/` — `main`, argument parsing with clap, error messages with
  thiserror, and the host that performs the requests on the real file system
  and processes.
