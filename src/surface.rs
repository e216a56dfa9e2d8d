use vstd::prelude::*;

verus! {

/// Pixel formats a host allocation may carry.
#[derive(Clone, Copy, Debug, PartialEq, Eq, Structural)]
pub enum TextureFormat {
    Rgba8Unorm,
    Rgba8UnormSrgb,
    Bgra8Unorm,
    Bgra8UnormSrgb,
}

impl TextureFormat {
    /// Bytes taken by one texel.
    pub fn block_size(&self) -> (r: u32)
        ensures
            r == 4,
    {
        match self {
            TextureFormat::Rgba8Unorm => 4,
            TextureFormat::Rgba8UnormSrgb => 4,
            TextureFormat::Bgra8Unorm => 4,
            TextureFormat::Bgra8UnormSrgb => 4,
        }
    }
}

/// Layout of an externally shared GPU-importable buffer.
#[derive(Clone, Copy, Debug)]
pub struct DmabufInfo {
    pub size: [u32; 2],
    pub modifier: u64,
    pub fd: i32,
    pub plane_offset: u64,
    pub plane_stride: u32,
}

/// Layout of a pixel buffer in host memory.
#[derive(Clone, Copy, Debug)]
pub struct HostAllocationInfo {
    pub size: [u32; 2],
    pub format: TextureFormat,
    pub stride: u32,
}

/// Where the pixels of a surface come from.
#[derive(Clone, Debug)]
pub enum SurfaceSource {
    Dmabuf { info: DmabufInfo },
    HostAllocation { info: HostAllocationInfo, data: Vec<u8> },
}

/// A surface source without its pixel data.
#[derive(Clone, Copy, Debug)]
pub enum SurfaceSourceInfo {
    Dmabuf(DmabufInfo),
    HostAllocation(HostAllocationInfo),
}

pub open spec fn source_info(source: SurfaceSource) -> SurfaceSourceInfo {
    match source {
        SurfaceSource::Dmabuf { info } => SurfaceSourceInfo::Dmabuf(info),
        SurfaceSource::HostAllocation { info, .. } => SurfaceSourceInfo::HostAllocation(info),
    }
}

impl SurfaceSource {
    /// A copy of this source, pixels included.
    pub fn duplicate(&self) -> (r: SurfaceSource)
        ensures
            source_info(r) == source_info(*self),
            pixel_bytes(r) == pixel_bytes(*self),
    {
        match self {
            SurfaceSource::Dmabuf { info } => SurfaceSource::Dmabuf { info: *info },
            SurfaceSource::HostAllocation { info, data } => {
                let copy = data.clone();
                assert(copy@ =~= data@);
                SurfaceSource::HostAllocation { info: *info, data: copy }
            },
        }
    }

    /// The layout of this source, without its pixels.
    pub fn info(&self) -> (r: SurfaceSourceInfo)
        ensures
            r == source_info(*self),
    {
        match self {
            SurfaceSource::Dmabuf { info } => SurfaceSourceInfo::Dmabuf(*info),
            SurfaceSource::HostAllocation { info, .. } => SurfaceSourceInfo::HostAllocation(*info),
        }
    }
}

impl From<DmabufInfo> for SurfaceSourceInfo {
    fn from(info: DmabufInfo) -> (r: Self) {
        SurfaceSourceInfo::Dmabuf(info)
    }
}

impl vstd::std_specs::convert::FromSpecImpl<DmabufInfo> for SurfaceSourceInfo {
    open spec fn obeys_from_spec() -> bool {
        true
    }

    open spec fn from_spec(info: DmabufInfo) -> Self {
        SurfaceSourceInfo::Dmabuf(info)
    }
}

impl From<HostAllocationInfo> for SurfaceSourceInfo {
    fn from(info: HostAllocationInfo) -> (r: Self) {
        SurfaceSourceInfo::HostAllocation(info)
    }
}

impl vstd::std_specs::convert::FromSpecImpl<HostAllocationInfo> for SurfaceSourceInfo {
    open spec fn obeys_from_spec() -> bool {
        true
    }

    open spec fn from_spec(info: HostAllocationInfo) -> Self {
        SurfaceSourceInfo::HostAllocation(info)
    }
}

} // verus!

verus! {

/// How the engine backs a texture.
#[derive(Clone, Copy, Debug)]
pub enum TextureOrigin {
    /// Memory the engine allocates; pixels are uploaded into it.
    Local,
    /// An imported buffer, one plane.
    Dmabuf { fd: i32, modifier: u64, plane_offset: u64, plane_end: u128, row_pitch: u64 },
}

/// Everything the engine needs to create a surface's texture.
#[derive(Clone, Copy, Debug)]
pub struct TexturePlan {
    pub width: u32,
    pub height: u32,
    pub format: TextureFormat,
    pub bytes_per_row: u64,
    pub rows_per_image: u32,
    pub origin: TextureOrigin,
}

/// The texture plan a source calls for.
pub open spec fn texture_plan(info: SurfaceSourceInfo) -> TexturePlan {
    match info {
        SurfaceSourceInfo::HostAllocation(h) => TexturePlan {
            width: h.size[0],
            height: h.size[1],
            format: h.format,
            bytes_per_row: h.stride as u64,
            rows_per_image: h.size[1],
            origin: TextureOrigin::Local,
        },
        SurfaceSourceInfo::Dmabuf(d) => TexturePlan {
            width: d.size[0],
            height: d.size[1],
            format: TextureFormat::Rgba8UnormSrgb,
            bytes_per_row: d.plane_stride as u64,
            rows_per_image: d.size[1],
            origin: TextureOrigin::Dmabuf {
                fd: d.fd,
                modifier: d.modifier,
                plane_offset: d.plane_offset,
                plane_end: (d.plane_stride * d.size[0] * d.size[1]) as u128,
                row_pitch: d.plane_stride as u64,
            },
        },
    }
}

/// The bytes of the pixels a source carries, if it carries any.
pub open spec fn pixel_bytes(source: SurfaceSource) -> Option<Seq<u8>> {
    match source {
        SurfaceSource::HostAllocation { data, .. } => Some(data@),
        SurfaceSource::Dmabuf { .. } => None,
    }
}

/// The pixels a source carries, if it carries any.
pub open spec fn source_pixels(source: SurfaceSource) -> Option<Vec<u8>> {
    match source {
        SurfaceSource::HostAllocation { data, .. } => Some(data),
        SurfaceSource::Dmabuf { .. } => None,
    }
}

/// Pixels to copy into the whole of an existing texture.
#[derive(Clone, Debug)]
pub struct TextureUpload {
    pub texture: u64,
    pub data: Vec<u8>,
    pub width: u32,
    pub height: u32,
    pub bytes_per_row: u64,
    pub rows_per_image: u32,
}

/// The per-surface record read by the vertex stage, one per live surface.
#[derive(Clone, Copy, Debug)]
pub struct Surface {
    pub position: [i32; 3],
    pub size: [u32; 2],
    /// Position of this surface's texture view in the bound texture array.
    pub image_index: u32,
}

/// What the pool keeps of each surface besides its instance record.
#[derive(Clone, Copy, Debug)]
pub struct SurfaceInfo {
    pub texture_id: u64,
    pub texture_view_id: u64,
    pub info: SurfaceSourceInfo,
    pub position: [i32; 3],
    pub size: [u32; 2],
}

impl SurfaceInfo {
    pub fn new(
        texture_id: u64,
        texture_view_id: u64,
        info: SurfaceSourceInfo,
        position: [i32; 3],
        size: [u32; 2],
    ) -> (r: Self)
        ensures
            r == (SurfaceInfo { texture_id, texture_view_id, info, position, size }),
    {
        SurfaceInfo { texture_id, texture_view_id, info, position, size }
    }

    /// The instance record of this surface, drawn with texture `image_index`.
    pub fn generate_data(&self, image_index: u32) -> (r: Surface)
        ensures
            r == (Surface { position: self.position, size: self.size, image_index }),
    {
        Surface { position: self.position, size: self.size, image_index }
    }
}

} // verus!
