# Solstice

Debugging and language-server support for Solidity, verified with
[Verus](https://github.com/verus-lang/verus).

* `src/` is the library. It lays out storage and memory and reads values out of them, generates
  contracts for a type with the values that they set, follows an execution through source maps and
  syntax trees, answers a debug adapter session, and looks up hovers, definitions, references,
  diagnostics and code lenses in a compiled namespace. Files whose names end in `_laws` state what
  holds of the library as a whole.
* `app/` is the server around it: the language server protocol and the debug adapter protocol over
  sockets, the `solang` and `solc` compilers, and the `forge` command.
* `tests/` runs the library on concrete values.
