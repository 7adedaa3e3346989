//! What the device allows.

use vstd::prelude::*;

verus! {

/// The limits of a device that the renderer's bookkeeping depends on.
#[derive(Clone, Copy, Debug, PartialEq, Eq, Structural)]
pub struct DeviceLimits {
    /// The largest buffer, in bytes, that can be created.
    pub max_buffer_size: u64,
    /// The largest range of a buffer, in bytes, that can be bound as storage.
    pub max_storage_buffer_binding_size: u64,
}

impl DeviceLimits {
    /// The largest buffer that can be created and bound whole as storage.
    pub open spec fn spec_storage_limit(&self) -> u64 {
        if self.max_buffer_size < self.max_storage_buffer_binding_size {
            self.max_buffer_size
        } else {
            self.max_storage_buffer_binding_size
        }
    }

    /// The smaller of the two limits.
    #[verifier::when_used_as_spec(spec_storage_limit)]
    pub fn storage_limit(&self) -> (limit: u64)
        ensures
            limit == self.spec_storage_limit(),
    {
        if self.max_buffer_size < self.max_storage_buffer_binding_size {
            self.max_buffer_size
        } else {
            self.max_storage_buffer_binding_size
        }
    }
}

} // verus!
