//! Errors of scene and camera construction.

use vstd::prelude::*;

verus! {

/// What can go wrong before any rendering begins; fatal to the render
/// invocation that caused it.
#[derive(Clone, Copy, Debug, PartialEq, Eq, Structural)]
pub enum RenderError {
    /// Fewer than two of height, width and aspect ratio were given.
    CameraUnderSpecified,
    /// All three of height, width and aspect ratio were given.
    CameraOverSpecified,
    /// An embedded texture image could not be decoded.
    TextureDecode,
}

impl RenderError {
    /// A short description of the error.
    pub fn message(&self) -> (r: &'static str)
        ensures
            true,
    {
        match self {
            RenderError::CameraUnderSpecified => {
                "require exactly 2 of (height, width, aspect ratio)"
            },
            RenderError::CameraOverSpecified => {
                "require exactly 2 of (height, width, aspect ratio)"
            },
            RenderError::TextureDecode => "could not decode texture image",
        }
    }
}

} // verus!
