//! Plain handle types and builders for OpenGL objects.
//!
//! The values here only record names and choices, and check the arguments of
//! driver calls; the calls into the driver are made by the application around
//! the library.

pub mod attrib_loc;
pub mod bmp;
pub mod error;
pub mod misc;
pub mod program;
pub mod shader;
pub mod vao;
pub mod vert_attrib;

pub use self::attrib_loc::AttribLocation;
pub use self::error::Error;
pub use self::misc::{Gliw, ImageType};
pub use self::program::{Program, ProgramBuilder, ProgramFromFileBuilder};
pub use self::shader::{Shader, ShaderType};
pub use self::vao::Vao;
pub use self::vert_attrib::{AttribFloatFormat, AttribIntFormat, VertexAttrib};
