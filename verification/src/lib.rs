//! Compiler kernel for covenant-based Bitcoin contracts: a clause algebra
//! over spending conditions, transaction templates bound by covenant
//! commitments, and a recursive contract compiler.

pub mod builder;
pub mod clause;
pub mod compiler;
pub mod context;
pub mod contracts;
pub mod hash;
pub mod norm;
pub mod policy;
pub mod template;
