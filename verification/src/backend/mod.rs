//! Backends: from a program to text.

pub mod facts;
pub mod laws;
pub mod model;
pub mod precheck;
pub mod validate;
pub mod verilog;
