//! Turning an expanded program over to the backend: runs the core former
//! and hands the result to the native-code context.

use vstd::prelude::*;

use crate::core_former::{Core, CoreError, CoreFormer};
use crate::mir::MIRContext;
use crate::primsyn::{Import, Program};

verus! {

pub type EvalResult<T> = Result<T, EvalError>;

/// An evaluation error.
#[derive(Debug)]
pub enum EvalError {
    /// A variable with no binding.
    UnboundVariable(String),
    /// The core former failed.
    Simplify(CoreError),
}

impl From<CoreError> for EvalError {
    fn from(value: CoreError) -> (r: Self) {
        EvalError::Simplify(value)
    }
}

impl vstd::std_specs::convert::FromSpecImpl<CoreError> for EvalError {
    open spec fn obeys_from_spec() -> bool {
        true
    }

    open spec fn from_spec(value: CoreError) -> Self {
        EvalError::Simplify(value)
    }
}

/// The evaluator: owns the native-code context it compiles into.
pub struct Evaluator {
    ctx: MIRContext,
}

impl Evaluator {
    /// An evaluator over the given context.
    pub fn init(ctx: MIRContext) -> (r: Self) {
        Evaluator { ctx }
    }

    /// Compiles a program through the core former. Since core formation is
    /// not supported yet, this reports that for every program.
    pub fn compile_program(&mut self, prgrm: &Program) -> (r: EvalResult<()>)
        ensures
            *final(self) == *old(self),
            r matches Err(e) && e matches EvalError::Simplify(ce) && ce
                == CoreError::NotSupported,
    {
        let _imports: &[Import] = prgrm.imports.as_slice();
        let stmts = prgrm.stmts.as_slice();
        let core_former = CoreFormer::init();
        match core_former.simplify(stmts) {
            Ok(_) => Ok(()),
            Err(e) => Err(EvalError::from(e)),
        }
    }
}

} // verus!
