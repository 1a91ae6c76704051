//! The methodology registry: the on-chain library of accounting
//! methodologies that carbon assets reference.
//!
//! The registry holds no state yet beyond its initialization flag; the
//! asset contract refers to registry entries by identity alone.

use vstd::prelude::*;

verus! {

/// The methodology registry contract state.
pub struct MethodologyLibrary {
    pub initialized: bool,
}

impl MethodologyLibrary {
    /// A registry that has not been initialized.
    pub fn new() -> (r: Self)
        ensures
            !r.initialized,
    {
        MethodologyLibrary { initialized: false }
    }

    /// Marks the registry initialized.
    pub fn initialize(&mut self)
        ensures
            final(self).initialized,
    {
        self.initialized = true;
    }
}

} // verus!
