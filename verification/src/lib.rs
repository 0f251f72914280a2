//! Front end for a structural hardware-description language.
//!
//! The core of the crate is a parameterized structural intermediate
//! representation: a hash-consed algebra of compile-time parameter
//! expressions, a tensor model of hardware signals, affine (stride/offset)
//! views over tensors, and a closed set of structural operators, together
//! with the lowering pass that builds this IR from a parsed module body.

pub mod ast;
pub mod builder;
pub mod concrete;
pub mod error;
pub mod expr;
pub mod ir;
pub mod op;
pub mod parser;
pub mod preprocessor;
pub mod tensor;
