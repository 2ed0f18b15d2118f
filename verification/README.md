# cargo-deny reports

The part of a dependency lint that explains its diagnostics: who depends on a
crate, and what a SARIF log says about it. The library is written in Verus; its
contracts state what each function returns, and the laws in `graph_laws`,
`paths`, `tree_text`, `locator`, `laws` and `print_laws` state what holds across
functions.

- `text`, `json`: texts and JSON values.
- `krate_graph`: the crates of a project as plain values. `cargo_graph` reads
  them from the graph of the `krates` crate.
- `small`: short lists over the `smallvec` crate.
- `diag`: diagnostics, the files and manifests they refer to, and inclusion
  graphs, as trees, text, paths and JSON.
- `sarif`: where the project declares a dependency, what each diagnostic is
  turned into, and the log of all of them.
- `app/` converts the values of `rustsec`, `codespan-reporting`, `toml-span` and
  `serde_json`.
