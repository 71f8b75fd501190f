use vstd::prelude::*;

verus! {

/// An OpenGL error code with its message.
pub struct Error {
    pub num: u32,
    pub msg: &'static str,
}

} // verus!
