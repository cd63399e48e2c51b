//! The context handed to the out-of-scope native-code backend: it only
//! collects modules here; code generation itself lives outside this crate.

use vstd::prelude::*;

verus! {

/// A module of generated code. The backend gives it content; here it is
/// only carried.
#[derive(Debug)]
pub struct MIRModule {}

/// The native-code generation context.
#[derive(Debug)]
pub struct MIRContext {
    modules: Vec<MIRModule>,
}

impl MIRContext {
    /// How many modules the context holds.
    pub closed spec fn module_count(self) -> nat {
        self.modules@.len()
    }

    /// A context with no modules.
    pub fn init() -> (r: Self)
        ensures
            r.module_count() == 0,
    {
        MIRContext { modules: Vec::new() }
    }
}

} // verus!
