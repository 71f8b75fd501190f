use vstd::prelude::*;

verus! {

/// The pipeline stage a shader is compiled for.
#[derive(Clone, Copy, Debug, PartialEq, Eq, Structural)]
pub enum ShaderType {
    Compute,
    Vertex,
    TessControl,
    TessEvaluation,
    Geometry,
    Fragment,
}

/// A compiled shader object, known by its driver-side name.
pub struct Shader {
    handle: u32,
}

impl Shader {
    /// Wraps a name that the driver returned for a compiled shader.
    pub fn from_handle(handle: u32) -> (r: Shader)
        ensures
            r.name() == handle,
    {
        Shader { handle }
    }

    /// The driver-side name of the shader.
    pub closed spec fn name(&self) -> u32 {
        self.handle
    }

    /// Gets the underlying OpenGL handle.
    pub fn handle(&self) -> (r: u32)
        ensures
            r == self.name(),
    {
        self.handle
    }
}

} // verus!
