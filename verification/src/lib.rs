//! A front end (scanner, parser, symbol table and semantic analysis) for the
//! B-Minor language.
pub mod ast;
pub mod scan;
pub mod sem;
pub mod sym;
pub mod syn;
pub mod text;
pub mod types;
