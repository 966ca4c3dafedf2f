//! The flattened representation of a program: tables addressed by dense indices.

pub mod base;
pub mod ids;
pub mod index;
mod sealed;
