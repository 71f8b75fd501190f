use vstd::prelude::*;

verus! {

/// A vertex array object, known by its driver-side name.
pub struct Vao {
    handle: u32,
}

impl Vao {
    /// Wraps a name that the driver generated for a vertex array.
    pub fn from_handle(handle: u32) -> (r: Vao)
        ensures
            r.name() == handle,
    {
        Vao { handle }
    }

    /// The driver-side name of the vertex array.
    pub closed spec fn name(&self) -> u32 {
        self.handle
    }

    /// Gets the underlying OpenGL handle.
    pub fn handle(&self) -> (r: u32)
        ensures
            r == self.name(),
    {
        self.handle
    }
}

} // verus!
