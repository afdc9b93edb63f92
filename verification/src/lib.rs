//! A verified toolchain for a small object-oriented teaching language:
//! a tokenizer, a two-scope symbol table and a single-pass recursive-descent
//! compiler that lower source text to a stack-machine command language,
//! together with the line parsers of the downstream translators.

pub mod asm_parser;
pub mod asm_symbol_table;
pub mod engine;
pub mod error;
pub mod lines;
pub mod strutil;
pub mod symbol_table;
pub mod tokenizer;
pub mod tokens;
pub mod vm_basic_parser;
pub mod vm_parser;
pub mod vm_writer;
