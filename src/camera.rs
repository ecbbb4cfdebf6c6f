use vstd::prelude::*;

verus! {

/// Projection of a camera.
#[derive(Clone, Copy, Debug, PartialEq, Eq, Structural)]
pub enum CameraType {
    Orthographic,
    Perspective,
}

/// Kind of a render pass attachment.
#[derive(Clone, Copy, Debug, PartialEq, Eq, Hash, Structural)]
pub enum AttachmentType {
    Color,
    Depth,
    Resolve,
}

} // verus!
