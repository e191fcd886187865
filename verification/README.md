# iris-agentic-dev shortcut commands

The logic behind the `exec`, `compile`, `query` and `doc` subcommands of
`iris-agentic-dev`, verified with Verus.

- `src/` — the verified library: choosing the code source of `exec`, the
  explicit connection named by flags, class and document names (`.mac`
  routine files keep their own name), upload outcomes, Atelier
  document paths (percent-encoded by `urlencoding`), the tab-separated query
  output, and the reports and exit status of `compile`.
  Laws of the output formats are stated as `law_*` proof functions.
- `app/` — argument parsing (clap), the IRIS connection and HTTP requests
  (`iris_agentic_dev_core`), reply bodies turned into library values
  (serde_json), and printing.
- `tests/` — unit tests of the library: TSV layout, query result extraction,
  code sources, document and class names, compile reports; the string
  helpers are compared against `str::lines`, `str::trim`,
  `str::split_whitespace` and `char::is_whitespace`.
