//! Front end of Slug, a small indentation-structured language that
//! compiles to Lua: a block lexer, a token cursor, a recursive-descent
//! parser, a gradual type checker over nested environments, and a Lua
//! emitter.
pub mod ast;
pub mod check;
pub mod climb;
pub mod emit;
pub mod env;
pub mod error;
pub mod lexer;
pub mod parser;
pub mod text;
pub mod traveler;
