//! Assembler and microcode tools for the bread computer: a lexer and parser
//! for its assembly dialect, an address layout pass, a byte emitter, a
//! generator for the control unit's microcode ROM, and a reference
//! interpreter.

// Instruction set and emission.
pub mod isa;
pub mod scope;
pub mod compiler;

// Front end: tokens, syntax tree, macros and layout.
pub mod error_handler;
pub mod lexer;
pub mod parser;
pub mod number_nodes;
pub mod nodes;
pub mod parsing;
pub mod macros;
pub mod program_node;
pub mod program;
pub mod program_parse;

// Control unit ROMs.
pub mod brain;
pub mod special_programs;

// Execution and reporting.
pub mod run;
pub mod timing;
