//! Error types for the render crate.

use vstd::prelude::*;

verus! {

/// Errors that can occur during rendering or engine setup.
#[derive(Debug)]
pub enum RenderError {
    /// wgpu initialization failed.
    WgpuInit(String),
    /// Surface was lost or outdated (e.g. resize).
    SurfaceLost,
    /// Material loading failed (e.g. invalid image file).
    MaterialLoad(String),
}

/// The message of an error, as its display text reads.
pub open spec fn spec_render_error_message(e: RenderError) -> Seq<char> {
    match e {
        RenderError::WgpuInit(msg) => "wgpu init failed: "@ + msg@,
        RenderError::SurfaceLost => "surface lost or outdated"@,
        RenderError::MaterialLoad(msg) => "material load failed: "@ + msg@,
    }
}

impl RenderError {
    /// Human-readable message for this error.
    pub fn message(&self) -> (s: String)
        ensures
            s@ == spec_render_error_message(*self),
    {
        match self {
            RenderError::WgpuInit(msg) => {
                let mut s = String::from_str("wgpu init failed: ");
                s.append(msg.as_str());
                s
            },
            RenderError::SurfaceLost => String::from_str("surface lost or outdated"),
            RenderError::MaterialLoad(msg) => {
                let mut s = String::from_str("material load failed: ");
                s.append(msg.as_str());
                s
            },
        }
    }
}

} // verus!
