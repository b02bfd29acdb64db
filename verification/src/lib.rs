use vstd::prelude::*;

pub mod emit;
pub mod ast;
pub mod checker;
pub mod codegen_riscv64;
pub mod codegen_x86_64;
pub mod ir;
pub mod lexer;
pub mod link;
pub mod lower_model;
pub mod lowering;
pub mod module;
pub mod numlit;
pub mod optimize;
pub mod parser;
pub mod regalloc;
pub mod text;

verus! {
}
