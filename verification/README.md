# Lineup

Lineup scans Go and TypeScript repositories for types whose field order
wastes memory to padding, and shows the order that wastes least.

- `src/` is the library, written in Verus: the Go struct parser, the
  TypeScript declaration reader (over the oxc syntax tree), the size tables,
  the layout and suggested-order computation, the file filters of a scan, and
  the grouping and decoding of the scan history. Each public function states
  what it computes in its contract (the TypeScript reader over the oxc
  parse, which it names), and the laws (the suggested order is never
  larger than any other order of the same fields, grouping keeps every result,
  and so on) are proof functions.
- `app/` is a command-line front end: it walks the repository, reads files,
  and keeps the history in SQLite.
- `tests/` runs the library on concrete inputs.
