//! Streaming of per-tile texture attachments for a tiled terrain.
//!
//! Each terrain node (a tile) may need several named attachments (height,
//! albedo, ...), loaded independently by an asynchronous asset service that
//! the host engine owns.  This crate holds the verified core of that
//! pipeline: the registry of attachment definitions, the correlation table
//! that ties an in-flight load ticket back to the `(node, label)` pair that
//! issued it, the dispatch step that resolves cache hits immediately, and
//! the completion step that finalizes a freshly resident image.
//!
//! The host engine drives the pipeline: it performs the actual asset
//! requests and hands the resulting tickets and load states to
//! [`pipeline::start_loading_attachment_from_disk`], and it feeds every
//! completion notification to
//! [`pipeline::finish_loading_attachment_from_disk`].

use vstd::prelude::*;

pub mod nodes;
pub mod pipeline;
pub mod registry;
pub mod source_path;
pub mod texture;

verus! {

/// Identifier of a terrain node (tile); the node tracking structure owns
/// the nodes themselves, this pipeline only uses the id as a lookup key.
pub type NodeId = u32;

/// Opaque handle for one in-flight or completed load request, as issued by
/// the asset loading service; unique per underlying resource.
pub type HandleId = u64;

/// The failures the pipeline can detect.  An unmatched completion ticket is
/// deliberately not among them: with several streaming contexts sharing one
/// notification stream, a foreign ticket is expected and silently skipped.
#[derive(Clone, Copy, Debug, PartialEq, Eq, Structural)]
pub enum AttachmentError {
    /// A correlation entry for the same ticket already exists.
    DuplicateTicket,
    /// A load was dispatched for a node that is not currently loading.
    UnknownNode,
    /// A completion referred to a label no longer present in the registry.
    UnknownLabel,
}

} // verus!
