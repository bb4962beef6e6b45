pub mod ast;
pub mod ir;
pub mod semant;
pub mod codegen;
pub mod pretty;
pub mod text;
pub mod parse;
pub mod typing;
