# riku

Semantic version control for chip design files, starting with Xschem
schematics: instead of a text diff, two versions of a `.sch` file are
compared component by component, net by net.

- `src/` is the library, written in Verus: the `.sch` reader, the semantic
  comparison, the driver report, the per-file summaries behind `diff`,
  `log` and `status`, the repository port and its blob policies, and the
  text of the command line. Verus proves every function, and the public
  ones carry contracts that say what they compute; the few calls into `std`, `sha2`, `dirs`, `tempfile` and `git2`
  that cannot be proved sit behind small wrappers whose doc comments say
  what is assumed of them.
- `tests/` exercises the library on concrete inputs.
- `app/` is the `riku` command: argument parsing (`clap`), Git access
  (`git2`), rendering through the `xschem` binary, SVG annotation, JSON
  output (`serde_json`) and the interactive shell (`rustyline`).
