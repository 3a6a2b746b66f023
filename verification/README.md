# b_minor

A front end for the B-Minor language (from *Introduction to Compilers and
Language Design*): a scanner, a parser, a string table, a symbol table and a
semantic analyser, written in Verus and verified against specifications.

## Layout

- `src/scan.rs`: the scanner. The lexer is specified as functions on a
  character state (`lx_*`), and the tokens a scanner will hand out as a token
  stream (`Scanner::stream`); every scanner method is proved against them.
  Errors are values (`SyntaxError`), with the message text specified too.
- `src/syn.rs`: the parser. The grammar is specified as functions on token
  streams (`p_*`, `parse_program`); each parsing method returns exactly what
  the grammar gives for the tokens still to be read, and the nodes it builds
  carry distinct identities from the parser's counter (`node_ids`,
  `ids_fresh`).
- `src/ast.rs`, `src/types.rs`: syntax trees and types, with their models
  (`AstM`, `TypeM`), equality that ignores node identities, and copies.
- `src/sym.rs`: the string table (interning) and the symbol table (nested
  scopes, forward declarations).
- `src/sem.rs`: the semantic analyser, specified as functions on an analysis
  state (`sem_*`).
- `src/text.rs`: literal text and numbers in decimal, for messages.
- `app/`: the command-line driver (reads a file, prints the tree or the first
  error) and the start of a code generator.
- `tests/`: tests of every module.

Laws of the library stand in `src/` as public proof functions (`lemma_*`) and
in the contracts of the functions they are about.
