//! The hooks that a pool calls to make, check and let go of its resources.

use crate::errors::RecycleResult;
use vstd::prelude::*;

verus! {

/// Manager responsible for creating new resources, recycling used ones and
/// seeing them off.
///
/// The pool promises nothing of what the hooks return: it deals with every
/// outcome.
pub trait Manager: Sync + Send {
    /// Type of the resources that this manager creates and recycles.
    type Type;

    /// Error that this manager can return when creating or recycling
    /// resources.
    type Error;

    /// Creates a new resource.
    fn create(&self) -> Result<Self::Type, Self::Error>;

    /// Tries to recycle a resource: checks that it is fit for use and resets
    /// it. On an error the pool gives the resource up.
    fn recycle(&self, obj: &mut Self::Type) -> RecycleResult<Self::Error>;

    /// Called whenever a resource leaves the pool without coming back to it.
    /// It does nothing unless the manager says otherwise.
    fn detach(&self, obj: &mut Self::Type) {
    }
}

} // verus!
