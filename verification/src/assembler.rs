//! From parsed statements to bytecode: the statement and value shapes the
//! compiler consumes, and the compiler itself.

pub mod ast;
pub mod compiler;
