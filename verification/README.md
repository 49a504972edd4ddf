# monkey

The front end of an interpreter for the Monkey language, verified with Verus.

- `src/lexer/`: `tokenize` splits a program's text into tokens (`token.rs`);
  `lex` states which tokens a text has, and the lemmas show that whitespace
  only separates tokens.
- `src/parser/`: `Parser::parse_program` is a Pratt parser that reports every
  statement that fails. `grammar.rs` states what parsing a token sequence
  gives, `ast.rs` holds the syntax tree and its view, `progress.rs` proves
  that parsing only reads forward, and `integer.rs` states which texts are
  integers.
- `src/symtab/`: the symbol table of the compiler, with nested scopes;
  `lookup` states what `resolve` gives, and the lemmas relate `define` and
  `resolve`; getters give the scope and slot of a symbol and the count and
  enclosing table of a table. The symbols of a scope are kept in a `Vec` in which no name
  occurs twice, not in a `HashMap` keyed by `String`: Verus cannot prove what
  a `String`-keyed `HashMap` holds after an insertion. A redefinition
  replaces the entry of its name, and `==` compares tables by name, as the
  map would.
- `src/parser/laws.rs`: how chains of operators group (to the left for
  equal precedence, tighter operators first) and how statements and errors accumulate into a program.
- `tests/`: tests of the three parts on concrete programs.
