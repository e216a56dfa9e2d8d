//! Composites a dynamic set of textured rectangles ("surfaces") onto the
//! displays of one or more GPU devices.
//!
//! The library holds the bookkeeping and the decisions: which surfaces are
//! live and in what order, which image index each surface draws with, and
//! which GPU descriptors must be rebuilt after a batch of mutations. It hands
//! the rendering engine plain requests to carry out.
mod surface;
pub use surface::{
    DmabufInfo, HostAllocationInfo, Surface, SurfaceInfo,
    SurfaceSource, SurfaceSourceInfo, TextureFormat, TextureOrigin, TexturePlan, TextureUpload,
};
mod projection;
pub use projection::{ClipPoint, Projection, Ratio, MAX_SURFACE_COUNT};
mod requests;
pub use requests::{DrawPlan, EngineRequest, InstanceField, RenderPassPlan, PUSH_CONSTANT_BYTES};
mod error;
pub use error::SurfaceError;
mod surface_manager;
pub use surface_manager::{
    lemma_index_consistency, lemma_reconcile_idempotent, lemma_remove_then_add_keeps_order,
    SurfaceManager, SurfaceSlot, MAX_SURFACES,
};
mod display;
pub use display::{Display, DisplayResources};
mod events;
pub use events::{DisplayEvent, ScreenTaskEvent};
mod device_resources;
pub use device_resources::DeviceResources;
mod screen_task;
pub use screen_task::{
    lemma_device_index_consistency, lemma_empty_device_has_no_texture_array,
    lemma_draw_with_surfaces, lemma_no_draw_without_surfaces, CommandBufferKind,
    CommandBufferRef, ScreenTask,
};
