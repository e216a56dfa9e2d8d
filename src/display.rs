use vstd::prelude::*;
use crate::requests::EngineRequest;
use crate::surface::TextureFormat;
use crate::surface_manager::SurfaceManager;

verus! {

/// An output (swapchain) attached to a device.
#[derive(Clone, Copy, Debug)]
pub struct Display {
    pub device: u64,
    pub swapchain: u64,
    pub position: [u32; 2],
    pub size: [u32; 2],
    pub format: TextureFormat,
}

impl Display {
    /// Attaches a display and asks for its depth target.
    pub fn new(
        out: &mut Vec<EngineRequest>,
        device: u64,
        swapchain: u64,
        position: [u32; 2],
        size: [u32; 2],
        format: TextureFormat,
    ) -> (r: Self)
        ensures
            r == (Display { device, swapchain, position, size, format }),
            final(out)@ == old(out)@.push(
                EngineRequest::DepthTarget { device, swapchain, width: size[0], height: size[1] },
            ),
    {
        out.push(EngineRequest::DepthTarget { device, swapchain, width: size[0], height: size[1] });
        Display { device, swapchain, position, size, format }
    }

    /// Takes the display's new size and format and rebuilds its depth
    /// target. Returns whether the format changed.
    pub fn update(&mut self, out: &mut Vec<EngineRequest>, size: [u32; 2], format: TextureFormat) -> (r:
        bool)
        ensures
            *final(self) == (Display { size, format, ..*old(self) }),
            r == (old(self).format != format),
            final(out)@ == old(out)@.push(
                EngineRequest::DepthTarget {
                    device: old(self).device,
                    swapchain: old(self).swapchain,
                    width: size[0],
                    height: size[1],
                },
            ),
    {
        let changed = self.format != format;
        self.size = size;
        self.format = format;
        out.push(
            EngineRequest::DepthTarget {
                device: self.device,
                swapchain: self.swapchain,
                width: size[0],
                height: size[1],
            },
        );
        changed
    }

    pub fn swapchain(&self) -> (r: u64)
        ensures
            r == self.swapchain,
    {
        self.swapchain
    }

    pub fn position(&self) -> (r: [u32; 2])
        ensures
            r == self.position,
    {
        self.position
    }

    pub fn size(&self) -> (r: [u32; 2])
        ensures
            r == self.size,
    {
        self.size
    }
}

/// A display with the state of its render pipeline.
#[derive(Clone, Copy, Debug)]
pub struct DisplayResources {
    pub display: Display,
    /// Whether the pipeline was last built with a fragment stage, which it
    /// can only have while the texture array is not empty.
    pub render_pipeline_ready: bool,
}

impl DisplayResources {
    /// Builds the display's render pipeline for the surfaces of `surfaces`.
    pub fn new(out: &mut Vec<EngineRequest>, display: Display, surfaces: &SurfaceManager) -> (r:
        Self)
        ensures
            r.display == display,
            r.render_pipeline_ready == (surfaces.slots().len() > 0),
            final(out)@ == old(out)@.push(
                EngineRequest::RenderPipeline {
                    device: display.device,
                    swapchain: display.swapchain,
                    format: display.format,
                    fragment: surfaces.slots().len() > 0,
                },
            ),
    {
        let ready = surfaces.len() > 0;
        out.push(
            EngineRequest::RenderPipeline {
                device: display.device,
                swapchain: display.swapchain,
                format: display.format,
                fragment: ready,
            },
        );
        DisplayResources { display, render_pipeline_ready: ready }
    }
}

} // verus!
