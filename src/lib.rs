//! Toolchain for the 16-bit Hack computer: an assembler from Hack assembly to
//! binary machine words, and a translator from the stack-based VM language to
//! Hack assembly.

pub mod text;
pub mod instructions;
pub mod tokenizer;
pub mod symbol_table;
pub mod assembler;
pub mod vm_parser;
pub mod reg_mgr;
pub mod label_manager;
pub mod snippets;
pub mod memory;
pub mod arithmetic;
pub mod flow;
pub mod marker;
pub mod writer;
pub mod translator;
pub mod machine;
