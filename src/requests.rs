use vstd::prelude::*;
use crate::projection::Projection;
use crate::surface::{Surface, TextureFormat, TexturePlan, TextureUpload};

verus! {

/// A field of a surface's instance record.
#[derive(Clone, Copy, Debug)]
pub enum InstanceField {
    Position([i32; 3]),
    Size([u32; 2]),
    ImageIndex(u32),
}

/// Size of the per-display push constants: one 4 x 4 matrix of 4-byte
/// floats, already a multiple of 4.
pub const PUSH_CONSTANT_BYTES: u32 = 64;

/// What one display's render pass does.
#[derive(Clone, Copy, Debug)]
pub struct RenderPassPlan {
    pub swapchain: u64,
    /// `None`: the pass only loads its attachments and draws nothing.
    pub draw: Option<DrawPlan>,
}

/// One instanced draw of every live surface.
#[derive(Clone, Copy, Debug)]
pub struct DrawPlan {
    pub projection: Projection,
    pub instance_count: u32,
}

/// Work for the rendering engine, in the order it must be done.
///
/// Devices and displays (swapchains) are named by the keys the engine gave
/// them; a surface's texture and view by the keys its pool chose.
#[derive(Clone, Debug)]
pub enum EngineRequest {
    /// Build the device's sampler, shaders, instance buffer and command buffers.
    InitDevice { device: u64 },
    /// Release everything held for the device.
    DropDevice { device: u64 },
    CreateTexture { device: u64, label: String, texture: u64, view: u64, plan: TexturePlan },
    /// Recreate an existing texture and its view, keeping their label.
    ReplaceTexture { device: u64, texture: u64, view: u64, plan: TexturePlan },
    WriteTexture { device: u64, upload: TextureUpload },
    RemoveTexture { device: u64, texture: u64, view: u64 },
    /// Take a slot of the instance buffer for surface `id`.
    RequestInstance { device: u64, id: usize, data: Surface },
    WriteInstanceField { device: u64, id: usize, field: InstanceField },
    ReleaseInstance { device: u64, id: usize },
    /// Turn the pending instance writes into upload commands.
    FlushInstances { device: u64 },
    /// Bind-group layout: the sampler, and a texture array of `texture_count`
    /// entries unless it is zero, in which case that entry is left out.
    BindGroupLayout { device: u64, texture_count: usize },
    /// Pipeline layout: the device's bind-group layout, and a push-constant
    /// range of `push_constant_bytes` bytes for the vertex stage.
    PipelineLayout { device: u64, push_constant_bytes: u32 },
    /// Bind group: the sampler, and `views` as the texture array unless empty.
    BindGroup { device: u64, views: Vec<u64> },
    /// (Re)build the depth target of a display at its size.
    DepthTarget { device: u64, swapchain: u64, width: u32, height: u32 },
    /// (Re)build a display's render pipeline: instanced quads over the
    /// device's pipeline layout, tested against the display's depth target
    /// with compare "less" and depth writes on, and, when `fragment`, a
    /// fragment stage writing colour in `format` without blending.
    RenderPipeline { device: u64, swapchain: u64, format: TextureFormat, fragment: bool },
    RemoveDisplay { device: u64, swapchain: u64 },
    /// The device's draw command buffer: one render pass per display.
    CommandBuffer { device: u64, passes: Vec<RenderPassPlan> },
}

/// Whether `r` rebuilds a bind-group layout, pipeline layout, bind group,
/// render pipeline or draw command buffer.
pub open spec fn is_rebuild(r: EngineRequest) -> bool {
    ||| r is BindGroupLayout
    ||| r is PipelineLayout
    ||| r is BindGroup
    ||| r is RenderPipeline
    ||| r is CommandBuffer
}

pub open spec fn no_rebuilds(rs: Seq<EngineRequest>) -> bool {
    forall|i: int| 0 <= i < rs.len() ==> !is_rebuild(#[trigger] rs[i])
}

/// `b` is `a` with requests appended.
pub open spec fn extends(a: Seq<EngineRequest>, b: Seq<EngineRequest>) -> bool {
    a.len() <= b.len() && b.subrange(0, a.len() as int) == a
}

pub proof fn lemma_extends_refl(a: Seq<EngineRequest>)
    ensures
        extends(a, a),
{
    assert(a.subrange(0, a.len() as int) =~= a);
}

pub proof fn lemma_extends_trans(a: Seq<EngineRequest>, b: Seq<EngineRequest>, c: Seq<EngineRequest>)
    requires
        extends(a, b),
        extends(b, c),
    ensures
        extends(a, c),
{
    assert forall|j: int| 0 <= j < a.len() implies #[trigger] c.subrange(0, a.len() as int)[j]
        == a[j] by {
        assert(c.subrange(0, b.len() as int)[j] == b[j]);
        assert(b.subrange(0, a.len() as int)[j] == a[j]);
    }
    assert(c.subrange(0, a.len() as int) =~= a);
}

/// Requests appended in two steps, each free of rebuilds, are free of
/// rebuilds together.
pub proof fn lemma_no_rebuilds_join(b: Seq<EngineRequest>, c: Seq<EngineRequest>, m: int)
    requires
        0 <= m <= b.len(),
        extends(b, c),
        no_rebuilds(b.subrange(m, b.len() as int)),
        no_rebuilds(c.subrange(b.len() as int, c.len() as int)),
    ensures
        no_rebuilds(c.subrange(m, c.len() as int)),
{
    let r = c.subrange(m, c.len() as int);
    assert forall|j: int| 0 <= j < r.len() implies !is_rebuild(#[trigger] r[j]) by {
        if m + j < b.len() {
            assert(c.subrange(0, b.len() as int)[m + j] == b[m + j]);
            assert(b.subrange(m, b.len() as int)[j] == b[m + j]);
        } else {
            assert(c.subrange(b.len() as int, c.len() as int)[m + j - b.len()] == c[m + j]);
        }
    }
}

} // verus!
