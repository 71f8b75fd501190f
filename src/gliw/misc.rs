use vstd::prelude::*;

verus! {

/// Names the driver's global state calls (clearing, depth test, capabilities),
/// which the application makes.
pub struct Gliw;

/// Image file formats that textures can be loaded from.
pub enum ImageType {
    Bmp,
}

} // verus!
