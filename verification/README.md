# rlox

A lexer, a parser and a tree-walking interpreter for a small Lox dialect,
verified with Verus.

- `src/` is the verified library.
  - `token.rs`, `error.rs`: tokens, their kinds, and errors, with their text.
  - `lexer.rs`: the lexer and its model: the source is a sequence of UTF-8
    bytes, read left to right, one longest piece at a time
    (`scan`, `lex_from`, `lexed_tokens`). `Lexer::lex_tokens` returns exactly
    the tokens and errors of the model. `lexer_laws.rs` proves that tokens and
    errors lie in source order within the source, that the end-of-input token
    comes last, that every number token reads as a floating-point number,
    that every error is an unknown byte or one unterminated string at the
    end, and that each fixed spelling lexes back to its own kind.
    `lexer_locality.rs` proves that a stray byte in plain text costs exactly
    one error and changes no token.
  - `grammar.rs`: the grammar as functions from tokens and a position to the
    statement or expression parsed there and the position after it, or the
    first error. `parser.rs`: the recursive-descent parser, proved to give
    exactly what the grammar gives.
  - `number.rs`: the syntax of decimal floating-point numbers, which number
    literals must have.
  - `environment.rs`: variables in nested scopes, modelled as a sequence of
    maps, with the laws that relate `define`, `assign` and `get`.
  - `value.rs`: the values of a running program. Numbers are of any type
    that implements `Numeric`; the interpreter never looks inside one.
    `callable.rs`: the trait of values that a program can call.
  - `semantics.rs`: what evaluating an expression and executing statements
    give, as functions of the program, the variables and a `NumberModel`
    that says what each operation on numbers gives. `interpreter.rs`: the
    interpreter, proved to do what these functions say for every model that
    its number type follows. `semantics_laws.rs` and `program_laws.rs`: that
    a completed block leaves the innermost scope as it found it, that printed
    output is only ever extended, that a variable reads what was last
    declared or assigned to it, and that every program the parser builds can
    be run.
  - `printer.rs`: expressions in prefix form, numbers written as their
    number type writes them.
  - `text.rs`: decimal numerals.
- `app/` is the program: reading a script or a REPL line, running it on
  64-bit floating-point numbers, and printing what it printed; and the
  debug form of expressions that the printer shows for an assignment.
- `tests/` runs the library on concrete programs.

Grammar of expressions, from the loosest operator to the tightest:

```bnf
expression   → comma;
comma        → assignment ("," assignment)*;
assignment   → ternary ("=" assignment)?;
ternary      → logical_or ("?" expression ":" ternary)?;
logical_or   → logical_and ("||" logical_and)*;
logical_and  → equality ("&&" equality)*;
equality     → comparison (("!=" | "==") comparison )*;
comparison   → term ((">" | ">=" | "<" | "<=") term )*;
term         → factor (("-" | "+") factor )*;
factor       → unary (( "/" | "*") unary)*;
unary        → ("!" | "-") unary
             | binary_op_error
             | primary
             ;
primary      → NUMBER | STRING | "true" | "false" | "nil" | "null" | IDENTIFIER
             | "(" expression ")"
             ;

binary_op_error → "!=" | "==" | ">" | ">=" | "<" | "<=" | "+" | "*" | "/";
```
