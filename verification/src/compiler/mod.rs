pub mod text;
pub mod lexer;
pub mod parser;
pub mod semantic;
pub mod codegen;
pub mod ir;
pub mod dce;
pub mod copy_propagation;
pub mod codegenllc;
pub mod lowering;
