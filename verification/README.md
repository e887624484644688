# datex_compiler

A verified library for the front and back end of the DATEX compiler: the lexer for DATEX
script text, the decoding of text literals, the parser from script text to expression trees (for
literals, lists, maps, blocks of statements, arithmetic and comparisons), type inference, the precompiler that
resolves variable reads, the compiler from expression trees to DXB bytecode with its scopes and
slot placeholders, the extraction of static values, a direct writer that inserts values in
their smallest encoding, and the encoding of values and types into DXB bytecode. Every function
states its behaviour in `requires` / `ensures` clauses that Verus proves.

Layout of `src/`:

- `utils/` – little-endian byte encoding and string building.
- `values/` – the values, types and pointer addresses that are compiled.
- `global/` – instruction codes of the bytecode.
- `core_compiler/` – the DXB encoding of values (`value_compiler`) and types (`type_compiler`).
- `compiler/lexer/` – the tokenizer: every token is the longest match of the highest-priority
  rule at its position.
- `compiler/text.rs` – escape sequences and JSON unicode escapes of text literals.
- `compiler/parser.rs` – the grammar of scripts over tokens, stated as spec functions, the
  parser that follows it exactly, and parsing of source text (lexing, then parsing).
- `compiler/script.rs` – compiling script text and templates with inserted values: parse,
  prepare the script for the execution mode (sections of unbounded scripts), compile, or
  return the value of a static script.
- `compiler/type_inference.rs` – the types of expressions and of type expressions.
- `compiler/bytecode.rs` – a direct bytecode writer that writes values, integers in their
  smallest form, and parses integers given in a radix.
- `compiler/context.rs` – the output buffer and the virtual-slot placeholders, remapped to
  slot addresses after compilation.
- `compiler/expression_compiler.rs` – compiles expressions (literals, lists, maps, blocks of
  statements, arithmetic operations, comparisons, variable reads, references, dereferences and
  the placeholders of script templates) to bytecode, remaps the slot placeholders of a whole
  script, and returns the value of a script that is static.
- `compiler/static_value.rs` – the value of a static expression, and why compiling it gives
  the encoding of that value.
- `compiler/scope.rs`, `compiler/precompiler/` – compilation scopes, the precompiler's scope
  stack, variable metadata, and the precompiler's walk over an expression (`visit`).
- `compiler/error.rs` – compiler errors and how they are collected.
- `ast/` – the expressions of the syntax tree, unary operators, variable kinds and visitor
  actions.
