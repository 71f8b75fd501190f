use vstd::prelude::*;

verus! {

/// An attribute location as the driver reported it for a program.
pub struct AttribLocation {
    handle: i32,
}

impl AttribLocation {
    /// Wraps a location that the driver returned.
    pub fn from_handle(handle: i32) -> (r: AttribLocation)
        ensures
            r.location() == handle,
    {
        AttribLocation { handle }
    }

    pub closed spec fn location(&self) -> i32 {
        self.handle
    }

    /// Gets the underlying attribute location.
    pub fn handle(&self) -> (r: i32)
        ensures
            r == self.location(),
    {
        self.handle
    }
}

} // verus!
