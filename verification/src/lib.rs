//! A 2D sprite-rendering core: a bin-packing atlas builder that stitches
//! images into one texture with matching quad geometry, and a per-frame
//! draw batcher that orders sprite instances by layer and groups them into
//! instanced draw calls over a growable instance buffer.
//!
//! The GPU surface, device and window glue live outside this crate; the
//! library computes placements, geometry, pixel composition and draw plans,
//! and states what it computes in its contracts.

pub mod atlas;
pub mod bitmap;
pub mod camera;
pub mod frame;
pub mod layer;
pub mod packing;
pub mod renderer;
pub mod sprite;
pub mod vertex;

pub use atlas::AtlasBuilder;
pub use atlas::AtlasData;
pub use atlas::AtlasError;
pub use bitmap::Bitmap;
pub use camera::Camera;
pub use camera::Frac;
pub use frame::DrawRun;
pub use frame::FrameBuilder;
pub use frame::FrameEntry;
pub use frame::FrameError;
pub use frame::FramePlan;
pub use layer::LayerIdentifier;
pub use layer::LayerTable;
pub use packing::Packer;
pub use packing::PlacedRect;
pub use renderer::InstanceCapacity;
pub use renderer::RecoveryAction;
pub use renderer::SurfaceIssue;

pub use sprite::SpriteDrawData;
pub use sprite::SpriteIndex;
pub use sprite::SpriteLoadOptions;
pub use vertex::Vertex;
