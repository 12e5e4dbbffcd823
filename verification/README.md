# orco

Core data structures of the OrCo compiler toolchain, verified with Verus.

- `src/` is the library. Its functions carry `requires`/`ensures` contracts
  over mathematical models (`Seq`, `Map`, spec functions), and Verus proves it.
  - `types`, `display`: the type language, instantiation of generic parameters,
    and its textual form.
  - `ir`: the flat body IR (instructions in inverse stack order, variables,
    labels, symbol uses), value types, literal lowering and debug printing.
  - `module`, `transforms`: modules of type aliases and functions, alias
    inlining, naming of anonymous structs, monomorphization.
  - `codebase`, `source`: interned names, source files, line lookups, paths.
  - `diagnostic`: the plain-text form of a diagnostic that cannot be rendered.
  - `mappers`, `type_inference`, `registry`: scoped name resolution.
  - `symbol_box`: boxes that track the references to a symbol.
  - `assoc`, `model`, `text`: association lists, the abstract models the
    contracts speak of, and decimal text.
- `tests/` exercises the library on concrete values.
- `app/` holds what stays outside verification: file reading, diagnostics
  rendering through `codespan-reporting`, float formatting, `sinter` interop
  and the `Mutability` trait.

Laws of the library (for example that naming anonymous structs twice changes
nothing more, or that instantiating with no bindings keeps a type) are public
proof functions next to the code they speak of.
