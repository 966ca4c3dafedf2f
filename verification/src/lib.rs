//! A SystemVerilog backend for Calyx programs, and the basic types of a flattened representation
//! of programs.

pub mod backend;
pub mod errors;
pub mod flat_ir;
pub mod ir;
pub mod text;
pub mod verilog_ast;
