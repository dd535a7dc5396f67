# stang

The front end of a compiler for a small C-like language, verified with Verus.

A source file is lexed and parsed into a high-level IR (`hir`), its top-level items are
registered so that any item may refer to any other, and every function is type checked into a
typed IR (`tir`) in which each expression carries its qualified type and each name is resolved
to a unique symbol.

Layout of `src/`:

- `lexer`, `token`, `span`: tokens with their source spans; the lexer is specified by the
  function `lex_next` on bytes.
- `parser`, `hir`: a recursive-descent parser for items and statements and a Pratt parser for
  expressions. Each parsing function is specified by a function on the token stream
  (`s_expr_bp`, `s_stmt`, `s_func`, `s_items`, ...), and `parse_file` by `parse_result`.
- `sema`, `tir`, `translation_unit`, `env`: name resolution through lexical scopes
  (`Scopes`), qualification of types, and the typing rules (`tc_rvalue`, `tc_lvalue`,
  `tc_stmt`, `tc_function`), over the abstract state `TcCtx`.
- `driver`: the built-in types and the front end as a whole (`analyze`).
- `interner`, `registry`: interning pools and registries of distinct values.
- `qual_type`, `raw_type`, `types`, `ir_types`, `ops`, `literal`, `text`: types, operators,
  integer literals and text rendering.
- `basicblock`, `label`, `function`, `module`: basic blocks and their labels, the builder of a
  function's control-flow graph (edges, emission, and the check that every block reachable
  from the entry ends with a terminator), and module symbols.
- `config`: checking and completing the command-line configuration.

`app/main.rs` is the command: it reads the arguments and the input file, runs `analyze`, and
reports errors with the offending source line.
