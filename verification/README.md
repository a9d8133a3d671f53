# reqlang-expr

A small s-expression language for templating, with a lexer, a parser, a
bytecode compiler, a stack based virtual machine and a disassembler. The
library in `src/` is written in Verus: each function carries a contract, and
the properties that tie the stages together are proved.

## Layout

- `src/lexer.rs`: source text into tokens with byte spans.
- `src/parser.rs`: tokens into an expression tree (`src/ast.rs`).
- `src/compiler.rs`: expressions into bytecode (`src/opcode.rs`, `src/lookup.rs`).
- `src/vm.rs`: the virtual machine that runs bytecode.
- `src/semantics.rs`: what an expression means, and the proof that running
  compiled bytecode gives that meaning.
- `src/builtins.rs`, `src/value.rs`, `src/types.rs`: builtin functions, values and types.
- `src/disassembler.rs`: bytecode as readable text.
- `src/errors.rs`, `src/diagnostics.rs`: errors, their messages, and line and column ranges.
- `src/cli.rs`, `src/cliutil.rs`, `src/text.rs`, `src/span.rs`: helpers.
- `app/`: the command line program (argument handling, files, terminal output).
- `tests/`: tests of the library.

## Syntax

| Syntax      | Description                                 |
| ----------- | ------------------------------------------- |
| `:a`        | Reference to the variable `a`               |
| `?b`        | Reference to the prompt `b`                 |
| `!c`        | Reference to the secret `c`                 |
| `id`        | Reference to the builtin `id`               |
| `@key`      | Reference to the client context value `key` |
| `(id :a)`   | Call to builtin `id` with arguments: `:a`   |
| `` `foo` `` | String literal                              |
| `true`      | Literal boolean value `true`                |
| `false`     | Literal boolean value `false`               |
