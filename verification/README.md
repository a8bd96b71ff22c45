# config

Layered configuration for Rust programs: values read from files, strings and
the environment, merged by precedence and read back by path. The library in
`src/` is written in Verus; each public function states its behaviour in
`requires`/`ensures` and Verus proves it.

- `value`: the insertion-ordered `Table` and the configuration value `ConfigValue`, with
  their mathematical models and the laws of inserting and removing keys.
- `formats`: the readers of JSON, JSON5, JSONC, TOML, YAML, RON, INI, Dhall,
  Gura and HOCON: each calls its format crate on the text (behind a trusted
  wrapper that turns the crate's document into the library's tree) and
  converts the tree into a table of values. The modules for TOML, RON, Gura
  and HOCON are named `toml_format`, `ron_format`, `gura_format` and
  `hocon_format`, leaving the plain names to the crates themselves.
- `outside`: declarations of the format crates' document types.
- `content`: sources that hold a parsed JSON, TOML or YAML document and
  collect it into entries.
- `env`: the environment source (prefix, separators, value parsing).
- `accessor`, `element`, `object`, `config`: paths, configuration elements,
  loaded objects and the layered configuration with its precedence law.
- `file`, `format`: file-backed sources and the format trait.
- `de`: the decisions of reading values into typed data.
- `error`, `text`: errors with the text they display, and text utilities.

`app/` holds what touches the outside world: reading files (a HOCON source
with a path is loaded from its file there) and the process environment, the
JSON5 reader (a serde parse into the library's tree), and `std::error::Error`
wrappers for the library's errors.
