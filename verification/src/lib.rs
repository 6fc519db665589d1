//! Front end of a tiny arithmetic calculator: a precedence-climbing parser
//! that turns a token sequence into an abstract syntax tree, and the state
//! machine of the interactive session driver that sequences read, parse,
//! dispatch and error policy around it.

pub mod ast;
pub mod repl;
pub mod token;
