//! A streaming text macro processor in the style of m4: `define`, quoting,
//! positional parameters and nested calls, driven by a token-level state
//! machine whose behaviour is stated as spec functions.
pub mod engine;
pub mod expand;
pub mod laws;
pub mod lexer;
pub mod table;
pub mod text;
