//! Core special forms: the simplification stage between the expanded
//! program and the backend. No simplification rules exist yet.

use vstd::prelude::*;

use crate::primsyn::Stmt;

verus! {

/// The simplified core representation. No simplification rules exist
/// yet; the one placeholder shape is never produced.
#[derive(Debug, PartialEq)]
pub enum Core {
    Unformed,
}

/// An error from core formation.
#[derive(Debug, Clone, Copy, PartialEq, Eq, Structural)]
pub enum CoreError {
    /// Core formation is not supported yet.
    NotSupported,
}

pub type CoreFormError<T> = Result<T, CoreError>;

/// The core former. Its rules are fixed; it carries no state.
pub struct CoreFormer {}

impl CoreFormer {
    /// A fresh core former.
    pub fn init() -> (r: Self) {
        CoreFormer {}
    }

    /// Simplification is not implemented: every call reports that as a
    /// classified error rather than crashing.
    pub fn simplify(&self, stmts: &[Stmt]) -> (r: CoreFormError<Core>)
        ensures
            r == Err::<Core, CoreError>(CoreError::NotSupported),
    {
        Err(CoreError::NotSupported)
    }
}

} // verus!
