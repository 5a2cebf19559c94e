pub mod compiler;
pub mod ir;
pub mod optimizer;
pub mod session;
pub mod utils;

use vstd::prelude::*;
use compiler::CompileError;
use ir::IrError;

pub use session::{Session, SessionError};

verus! {

/// Any error the library reports.
#[derive(Clone, Debug)]
pub enum WonnxError {
    CompileError(CompileError),
    SessionError(SessionError),
    IrError(IrError),
}

} // verus!
