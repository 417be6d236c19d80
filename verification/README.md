# atopile

A verified core for the Ato hardware description language, written in Verus.

`src/` is the library, every function of it checked by Verus against its contract:

- `token`, `lexer`, `scan`, `text`: the token kinds and the indentation-aware lexer,
  with the token stream of a source given as a specification (`spec_lex`).
- `ast`, `error`, `parser`: the syntax tree and a recursive-descent parser whose
  contracts say where each construct ends, how it fails, and the derivation of the
  tree from the tokens: expressions under the operator precedence levels, and every
  statement, the bodies of blocks and loops included.
- `ids`, `field`, `connection`, `constraint`, `module`, `design`: the intermediate
  representation of a design and its connection graph.
- `netlist_builder`, `path_graph`, `netlist`, `natord`, `sort`: building a netlist from
  a design; its nets are exactly the groups of connected paths that reach two or more
  component pins, one net for each group, each named after its least path, with
  nodes and nets in order.
- `kicad`, `kicad_library`, `schematic`, `bom`, `unit`, `cli`, `parts_query`: the export
  formats and the small computations of the command-line driver.

`app/` is the `ato` command-line driver around the library: argument handling, file
I/O, error reports, JSON output of the syntax tree, and the parts that compute with
floating-point numbers (physical quantities and intervals, board and schematic
placement), which the library does not hold.

`tests/` exercises the library.
