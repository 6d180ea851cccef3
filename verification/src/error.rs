//! Errors of the code-generation pipeline.

use vstd::prelude::*;

verus! {

/// Errors arising from the MLIR code-generation pipeline.
#[derive(Debug)]
pub enum CodegenError {
    UnsupportedExpr(String),
    VerificationFailed,
    LoweringFailed(String),
    LinkFailed(String),
    /// An I/O failure, by its message.
    Io(String),
}

/// The user-facing text of each error.
pub open spec fn spec_error_message(e: CodegenError) -> Seq<char> {
    match e {
        CodegenError::UnsupportedExpr(s) => "unsupported expression: "@ + s@,
        CodegenError::VerificationFailed => "MLIR module verification failed"@,
        CodegenError::LoweringFailed(s) => "MLIR lowering failed: "@ + s@,
        CodegenError::LinkFailed(s) => "linker failed: "@ + s@,
        CodegenError::Io(s) => "I/O error: "@ + s@,
    }
}

impl CodegenError {
    /// The user-facing text of the error.
    pub fn message(&self) -> (r: String)
        ensures
            r@ == spec_error_message(*self),
    {
        let mut out = String::new();
        match self {
            CodegenError::UnsupportedExpr(s) => {
                out.append("unsupported expression: ");
                out.append(s.as_str());
            },
            CodegenError::VerificationFailed => {
                out.append("MLIR module verification failed");
            },
            CodegenError::LoweringFailed(s) => {
                out.append("MLIR lowering failed: ");
                out.append(s.as_str());
            },
            CodegenError::LinkFailed(s) => {
                out.append("linker failed: ");
                out.append(s.as_str());
            },
            CodegenError::Io(s) => {
                out.append("I/O error: ");
                out.append(s.as_str());
            },
        }
        out
    }
}

} // verus!
