# mudshark_core

Shared building blocks of the mudshark system-inventory commands
(`get-battery`, `get-disk`, `get-process`, ...): each command reads the output
of a native tool or a system file, and reports it as an aligned table, pretty
JSON or compact JSON.

The library in `src/` is verified with Verus:

- `text`: the string toolkit the parsers are built from (`str::lines`,
  `split_whitespace`, `splitn`, `trim`, `u64` parsing and printing), each
  with a specification over `Seq<char>`.
- `table`: the fixed-width table renderer.
- `json`: the JSON value type, its pretty and compact serialisers and RFC 8259
  string escaping; `json_indent` and `json_layout` prove how the pretty text
  depends on the nesting level and that it differs from the compact text
  only in layout.
- `parse`: `KEY="value"` line parsing (as printed by `lsblk -P`).
- `format`, `cli`: output formats and the common command-line flags.
- `bytes`, `time`, `proc`: byte counts for people, ISO 8601 timestamps, and the
  messages for commands that fail.
- `commands::*`: one module per command, turning tool output into records and
  records into JSON values and tables.

`app/` holds the programs themselves: argument access, running tools,
reading files and the clock, and writing to standard output.
