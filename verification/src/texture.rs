//! Plain-value models of the image metadata the pipeline manipulates.
//!
//! The host engine's own image and descriptor types are opaque GPU
//! structures; the pipeline only ever reads and writes the descriptor
//! fields below, so they are modeled as plain integers.  The host converts
//! between its types and these at the boundary.

use vstd::prelude::*;

use crate::HandleId;

verus! {

/// The buffer layout to impose on a decoded attachment image: the fields of
/// the engine's texture descriptor that terrain streaming cares about.
/// Format, dimension and usage are carried as the engine's numeric codes.
#[derive(Clone, Copy, Debug, PartialEq, Eq, Structural)]
pub struct TextureDescriptor {
    pub width: u32,
    pub height: u32,
    pub mip_level_count: u32,
    pub sample_count: u32,
    pub dimension: u32,
    pub format: u32,
    pub usage: u32,
}

/// The metadata of a resource that has become resident in the asset
/// service.  The completion step overrides its descriptor with the one the
/// registry declared for the attachment's label.
#[derive(Clone, Copy, Debug, PartialEq, Eq, Structural)]
pub struct ResidentImage {
    pub texture_descriptor: TextureDescriptor,
}

/// An attachment slot attached to a node record.  A slot is reserved as
/// soon as the load is dispatched; its content is only valid for
/// consumption once the matching loaded-report has arrived.
#[derive(Clone, Copy, Debug, PartialEq, Eq, Structural)]
pub enum NodeAttachment {
    Texture { handle: HandleId },
}

} // verus!
