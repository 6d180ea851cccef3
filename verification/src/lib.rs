//! Verified core of the lumelir Lua compiler toolchain: source
//! diagnostics, the Lua string-pattern runtime linked into compiled
//! programs, the call-ABI result layout, the resolved IR and the pure
//! decisions the MLIR emitter takes on it (string-literal pool
//! included), the lowering of the scalar core of the language to MLIR
//! operations, the command-line front end's choices, and the codegen
//! errors.

pub mod pattern;
pub mod diag;
pub mod callabi;
pub mod hir;
pub mod emit;
pub mod strpool;
pub mod error;
pub mod mlir;
pub mod emitter;
pub mod runtime;
pub mod dispatch;
pub mod cli;
