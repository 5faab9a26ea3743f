use vstd::prelude::*;

verus! {

/// A dynamic error value: a short machine-readable kind tag (such as
/// `PermissionDenied`) together with a human-readable message.
pub struct NpmError {
    pub kind: String,
    pub message: String,
}

impl Clone for NpmError {
    fn clone(&self) -> (r: Self)
        ensures
            r == *self,
    {
        NpmError { kind: self.kind.clone(), message: self.message.clone() }
    }
}

} // verus!
