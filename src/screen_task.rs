use vstd::prelude::*;
use crate::device_resources::{
    is_bind_group, is_cascade, is_command_buffer, keeps_bindings, passes_of, DeviceResources,
};
use crate::error::SurfaceError;
use crate::events::{
    event_error, has_structural, ids_after, is_structural, slots_after, step_slots, DisplayEvent,
    ScreenTaskEvent,
};
use crate::display::{Display, DisplayResources};
use crate::requests::{
    extends, PUSH_CONSTANT_BYTES, lemma_extends_refl, lemma_extends_trans, lemma_no_rebuilds_join, no_rebuilds, EngineRequest,
};
use crate::surface::{SurfaceSource, TextureFormat};
use crate::surface_manager::{index_writes, reconciled, views_of, SurfaceSlot};

verus! {

/// Which command buffer of a device.
#[derive(Clone, Copy, Debug, PartialEq, Eq, Structural)]
pub enum CommandBufferKind {
    /// The draw of every display of the device.
    Draw,
    /// The upload of changed instance records.
    DataCopy,
}

#[derive(Clone, Copy, Debug, PartialEq, Eq, Structural)]
pub struct CommandBufferRef {
    pub device: u64,
    pub kind: CommandBufferKind,
}

/// The command buffers device `d` wants submitted this tick: its draw while
/// it has surfaces (and its bindings could be built), its uploads if this
/// tick produced any.
pub open spec fn device_command_buffers(d: DeviceResources) -> Seq<CommandBufferRef> {
    (if d.surfaces().len() > 0 && d.within_limit() {
        seq![CommandBufferRef { device: d.device, kind: CommandBufferKind::Draw }]
    } else {
        seq![]
    }) + (if d.data_copy_command_buffer_updated {
        seq![CommandBufferRef { device: d.device, kind: CommandBufferKind::DataCopy }]
    } else {
        seq![]
    })
}

pub open spec fn command_buffers_of(ds: Seq<DeviceResources>) -> Seq<CommandBufferRef>
    decreases ds.len(),
{
    if ds.len() == 0 {
        seq![]
    } else {
        command_buffers_of(ds.drop_last()) + device_command_buffers(ds.last())
    }
}

pub open spec fn error_seq(e: Option<SurfaceError>) -> Seq<SurfaceError> {
    match e {
        Some(x) => seq![x],
        None => seq![],
    }
}

/// What `e` fails with on each device of `ds`, in order, once `done` has
/// been applied to them.
pub open spec fn event_errors(
    ds: Seq<DeviceResources>,
    done: Seq<ScreenTaskEvent>,
    e: ScreenTaskEvent,
) -> Seq<SurfaceError>
    decreases ds.len(),
{
    if ds.len() == 0 {
        seq![]
    } else {
        event_errors(ds.drop_last(), done, e) + error_seq(
            event_error(ds.last().device, ids_after(ds.last().surface_manager.live_ids(), done), e),
        )
    }
}

/// What the events of a batch fail with on devices `ds`, event by event.
pub open spec fn batch_errors(ds: Seq<DeviceResources>, events: Seq<ScreenTaskEvent>) -> Seq<
    SurfaceError,
>
    decreases events.len(),
{
    if events.len() == 0 {
        seq![]
    } else {
        batch_errors(ds, events.drop_last()) + event_errors(
            ds,
            events.drop_last(),
            events.last(),
        )
    }
}

/// The devices of `ds` whose texture array outgrows their limit once
/// `events`, which create or remove surfaces, are applied.
pub open spec fn capacity_errors(ds: Seq<DeviceResources>, events: Seq<ScreenTaskEvent>) -> Seq<
    SurfaceError,
>
    decreases ds.len(),
{
    if ds.len() == 0 {
        seq![]
    } else {
        capacity_errors(ds.drop_last(), events) + if has_structural(events) && ids_after(
            ds.last().surface_manager.live_ids(),
            events,
        ).len() > ds.last().max_textures {
            seq![SurfaceError::CapacityExceeded { device: ds.last().device }]
        } else {
            seq![]
        }
    }
}

/// The surfaces device `a` holds after the batch `events`: the events
/// applied in order, then, if one of them creates or removes a surface,
/// every image index set to its position.
pub open spec fn surfaces_after(a: DeviceResources, events: Seq<ScreenTaskEvent>) -> Seq<
    SurfaceSlot,
> {
    let s = slots_after(a.surfaces(), events);
    if has_structural(events) {
        reconciled(s)
    } else {
        s
    }
}

/// `ds` with the uploads of the last tick forgotten.
pub open spec fn reset_uploads(ds: Seq<DeviceResources>) -> Seq<DeviceResources> {
    ds.map_values(|d: DeviceResources| DeviceResources { data_copy_command_buffer_updated: false, ..d })
}

/// `b` is `a` with display `d` attached to device `k`, and `r` the
/// requests that sends: its depth target, its pipeline and the device's draw.
pub open spec fn attached(
    a: Seq<DeviceResources>,
    b: Seq<DeviceResources>,
    k: int,
    d: DisplayResources,
    r: Seq<EngineRequest>,
) -> bool {
    &&& b.len() == a.len()
    &&& forall|i: int| 0 <= i < a.len() && i != k ==> #[trigger] b[i] == a[i]
    &&& b[k].device == a[k].device
    &&& b[k].surface_manager == a[k].surface_manager
    &&& b[k].displays@ == a[k].displays@.push(d)
    &&& r.len() == 3
    &&& r[0] == (EngineRequest::DepthTarget {
        device: a[k].device,
        swapchain: d.display.swapchain,
        width: d.display.size[0],
        height: d.display.size[1],
    })
    &&& r[1] == (EngineRequest::RenderPipeline {
        device: a[k].device,
        swapchain: d.display.swapchain,
        format: d.display.format,
        fragment: d.render_pipeline_ready,
    })
    &&& is_command_buffer(r[2], a[k].device, passes_of(b[k].displays@, a[k].surfaces().len()))
}

/// `b` is `a` without display `j` of device `k`, and without that device if
/// it was its last display; `r` the requests that sends.
pub open spec fn detached(
    a: Seq<DeviceResources>,
    b: Seq<DeviceResources>,
    k: int,
    j: int,
    r: Seq<EngineRequest>,
) -> bool {
    if a[k].displays@.len() > 1 {
        &&& b.len() == a.len()
        &&& forall|i: int| 0 <= i < a.len() && i != k ==> #[trigger] b[i] == a[i]
        &&& b[k].device == a[k].device
        &&& b[k].surface_manager == a[k].surface_manager
        &&& b[k].displays@ == a[k].displays@.remove(j)
        &&& r.len() == 2
        &&& r[0] == (EngineRequest::RemoveDisplay {
            device: a[k].device,
            swapchain: a[k].displays@[j].display.swapchain,
        })
        &&& is_command_buffer(r[1], a[k].device, passes_of(b[k].displays@, a[k].surfaces().len()))
    } else {
        &&& b == a.remove(k)
        &&& r == seq![EngineRequest::DropDevice { device: a[k].device }]
    }
}

/// `b` is `a` with display `j` of device `k` at a new size and format, and
/// `r` the requests that sends: its depth target, its pipeline only if the
/// format changed, and the device's draw.
pub open spec fn resized(
    a: Seq<DeviceResources>,
    b: Seq<DeviceResources>,
    k: int,
    j: int,
    size: [u32; 2],
    format: TextureFormat,
    r: Seq<EngineRequest>,
) -> bool {
    let d = a[k].displays@[j];
    let changed = d.display.format != format;
    &&& b.len() == a.len()
    &&& forall|i: int| 0 <= i < a.len() && i != k ==> #[trigger] b[i] == a[i]
    &&& b[k].device == a[k].device
    &&& b[k].surface_manager == a[k].surface_manager
    &&& b[k].displays@ == a[k].displays@.update(
        j,
        DisplayResources { display: Display { size, format, ..d.display }, ..d },
    )
    &&& r.len() == if changed {
        3int
    } else {
        2int
    }
    &&& r[0] == (EngineRequest::DepthTarget {
        device: d.display.device,
        swapchain: d.display.swapchain,
        width: size[0],
        height: size[1],
    })
    &&& changed ==> r[1] == (EngineRequest::RenderPipeline {
        device: a[k].device,
        swapchain: d.display.swapchain,
        format,
        fragment: d.render_pipeline_ready,
    })
    &&& is_command_buffer(r.last(), a[k].device, passes_of(b[k].displays@, a[k].surfaces().len()))
}

/// A new device `device` with one display and no surface, and the requests
/// that build it.
pub open spec fn created(
    a: Seq<DeviceResources>,
    b: Seq<DeviceResources>,
    device: u64,
    swapchain: u64,
    size: [u32; 2],
    format: TextureFormat,
    r: Seq<EngineRequest>,
) -> bool {
    &&& b.len() == a.len() + 1
    &&& b.drop_last() == a
    &&& b.last().device == device
    &&& b.last().surfaces().len() == 0
    &&& b.last().displays@ == seq![
        (DisplayResources {
            display: (Display { device, swapchain, position: [0, 0], size, format }),
            render_pipeline_ready: false,
        }),
    ]
    &&& r.len() == 7
    &&& r[0] == (EngineRequest::InitDevice { device })
    &&& r[1] == (EngineRequest::BindGroupLayout { device, texture_count: 0 })
    &&& r[2] == (EngineRequest::PipelineLayout { device, push_constant_bytes: PUSH_CONSTANT_BYTES })
    &&& is_bind_group(r[3], device, Seq::<u64>::empty())
    &&& r[4] == (EngineRequest::DepthTarget { device, swapchain, width: size[0], height: size[1] })
    &&& r[5] == (EngineRequest::RenderPipeline { device, swapchain, format, fragment: false })
    &&& is_command_buffer(r[6], device, passes_of(b.last().displays@, 0))
}

/// What a display event does to the devices `a`, giving `b`, with `r` the
/// requests it sends.
pub open spec fn display_event_effect(
    a: Seq<DeviceResources>,
    b: Seq<DeviceResources>,
    event: DisplayEvent,
    r: Seq<EngineRequest>,
) -> bool {
    match event {
        DisplayEvent::SwapchainCreated { device, swapchain, size, format } => {
            let fresh = forall|i: int| 0 <= i < a.len() ==> (#[trigger] a[i]).device != device;
            &&& fresh ==> created(a, b, device, swapchain, size, format, r)
            &&& !fresh ==> exists|k: int|
                0 <= k < a.len() && a[k].device == device && attached(
                    a,
                    b,
                    k,
                    (DisplayResources {
                        display: (Display { device, swapchain, position: [0, 0], size, format }),
                        render_pipeline_ready: a[k].surfaces().len() > 0,
                    }),
                    r,
                )
        },
        DisplayEvent::SwapchainDestroyed { swapchain } => {
            &&& !shows(a, swapchain) ==> b == a && r.len() == 0
            &&& shows(a, swapchain) ==> exists|k: int, j: int|
                0 <= k < a.len() && 0 <= j < a[k].displays@.len()
                    && a[k].displays@[j].display.swapchain == swapchain && detached(a, b, k, j, r)
        },
        DisplayEvent::SwapchainUpdated { swapchain, size, format } => {
            &&& !shows(a, swapchain) ==> b == a && r.len() == 0
            &&& shows(a, swapchain) ==> exists|k: int, j: int|
                0 <= k < a.len() && 0 <= j < a[k].displays@.len()
                    && a[k].displays@[j].display.swapchain == swapchain && resized(
                    a,
                    b,
                    k,
                    j,
                    size,
                    format,
                    r,
                )
        },
    }
}

/// No device holds uploads of the current tick.
pub open spec fn no_pending_uploads(ds: Seq<DeviceResources>) -> bool {
    forall|i: int| 0 <= i < ds.len() ==> !(#[trigger] ds[i]).data_copy_command_buffer_updated
}

/// Some device has a display on `swapchain`.
pub open spec fn shows(ds: Seq<DeviceResources>, swapchain: u64) -> bool {
    exists|i: int, j: int|
        0 <= i < ds.len() && 0 <= j < ds[i].displays@.len() && (#[trigger] ds[i].displays@[j]).display.swapchain
            == swapchain
}

/// A device's state besides its surfaces is what it was.
pub open spec fn same_outside_surfaces(a: DeviceResources, b: DeviceResources) -> bool {
    &&& b.device == a.device
    &&& b.displays == a.displays
    &&& b.max_textures == a.max_textures
    &&& b.texture_binding_count == a.texture_binding_count
    &&& b.bind_group_views == a.bind_group_views
    &&& b.data_copy_command_buffer_updated == a.data_copy_command_buffer_updated
    &&& b.surface_manager.device_id() == a.device
    &&& b.surface_manager.wf()
}

pub proof fn lemma_keeps_wf(a: DeviceResources, b: DeviceResources)
    requires
        a.wf(),
        same_outside_surfaces(a, b),
        keeps_bindings(a.surfaces(), b.surfaces()),
    ensures
        b.wf(),
{
    let s = b.surfaces();
    assert forall|k: int| 0 <= k < s.len() implies (#[trigger] s[k]).data.image_index == k by {
        assert(a.surfaces()[k].data.image_index == s[k].data.image_index);
    }
}

/// The surfaces and displays of every device, and the mutations waiting
/// for the next tick.
#[derive(Debug)]
pub struct ScreenTask {
    pending_events: Vec<ScreenTaskEvent>,
    devices: Vec<DeviceResources>,
    max_textures: usize,
}

impl ScreenTask {
    pub closed spec fn pending(&self) -> Seq<ScreenTaskEvent> {
        self.pending_events@
    }

    pub closed spec fn devices(&self) -> Seq<DeviceResources> {
        self.devices@
    }

    pub closed spec fn texture_limit(&self) -> usize {
        self.max_textures
    }

    pub open spec fn wf(&self) -> bool {
        &&& forall|i: int| 0 <= i < self.devices().len() ==> (#[trigger] self.devices()[i]).wf()
        &&& forall|i: int, j: int|
            0 <= i < self.devices().len() && 0 <= j < self.devices().len() && i != j
                ==> #[trigger] self.devices()[i].device != #[trigger] self.devices()[j].device
    }

    /// A task with no device yet; each device's texture array will hold at
    /// most `max_textures` views.
    pub fn new(max_textures: usize) -> (r: Self)
        ensures
            r.wf(),
            r.pending() == Seq::<ScreenTaskEvent>::empty(),
            r.devices() == Seq::<DeviceResources>::empty(),
            r.texture_limit() == max_textures,
    {
        ScreenTask { pending_events: Vec::new(), devices: Vec::new(), max_textures }
    }

    fn enqueue(&mut self, event: ScreenTaskEvent)
        ensures
            final(self).pending() == old(self).pending().push(event),
            final(self).devices() == old(self).devices(),
            final(self).texture_limit() == old(self).texture_limit(),
    {
        self.pending_events.push(event);
    }

    pub fn create_surface(
        &mut self,
        external_id: usize,
        label: String,
        source: SurfaceSource,
        position: [i32; 3],
        size: [u32; 2],
    )
        ensures
            final(self).pending() == old(self).pending().push(
                ScreenTaskEvent::CreateSurface { id: external_id, label, source, position, size },
            ),
            final(self).devices() == old(self).devices(),
            final(self).texture_limit() == old(self).texture_limit(),
    {
        self.enqueue(
            ScreenTaskEvent::CreateSurface { id: external_id, label, source, position, size },
        );
    }

    pub fn update_source(&mut self, external_id: usize, source: SurfaceSource)
        ensures
            final(self).pending() == old(self).pending().push(
                ScreenTaskEvent::UpdateSource { id: external_id, source },
            ),
            final(self).devices() == old(self).devices(),
            final(self).texture_limit() == old(self).texture_limit(),
    {
        self.enqueue(ScreenTaskEvent::UpdateSource { id: external_id, source });
    }

    pub fn update_data(&mut self, external_id: usize, data: Vec<u8>)
        ensures
            final(self).pending() == old(self).pending().push(
                ScreenTaskEvent::UpdateData { id: external_id, data },
            ),
            final(self).devices() == old(self).devices(),
            final(self).texture_limit() == old(self).texture_limit(),
    {
        self.enqueue(ScreenTaskEvent::UpdateData { id: external_id, data });
    }

    pub fn resize_surface(&mut self, external_id: usize, size: [u32; 2])
        ensures
            final(self).pending() == old(self).pending().push(
                ScreenTaskEvent::ResizeSurface { id: external_id, size },
            ),
            final(self).devices() == old(self).devices(),
            final(self).texture_limit() == old(self).texture_limit(),
    {
        self.enqueue(ScreenTaskEvent::ResizeSurface { id: external_id, size });
    }

    pub fn move_surface(&mut self, external_id: usize, position: [i32; 3])
        ensures
            final(self).pending() == old(self).pending().push(
                ScreenTaskEvent::MoveSurface { id: external_id, position },
            ),
            final(self).devices() == old(self).devices(),
            final(self).texture_limit() == old(self).texture_limit(),
    {
        self.enqueue(ScreenTaskEvent::MoveSurface { id: external_id, position });
    }

    pub fn remove_surface(&mut self, external_id: usize)
        ensures
            final(self).pending() == old(self).pending().push(
                ScreenTaskEvent::RemoveSurface { id: external_id },
            ),
            final(self).devices() == old(self).devices(),
            final(self).texture_limit() == old(self).texture_limit(),
    {
        self.enqueue(ScreenTaskEvent::RemoveSurface { id: external_id });
    }

    fn find_device(&self, device: u64) -> (r: Option<usize>)
        ensures
            match r {
                Some(k) => k < self.devices().len() && self.devices()[k as int].device == device,
                None => forall|i: int|
                    0 <= i < self.devices().len() ==> (#[trigger] self.devices()[i]).device != device,
            },
    {
        let mut k: usize = 0;
        while k < self.devices.len()
            invariant
                k <= self.devices@.len(),
                forall|i: int| 0 <= i < k ==> (#[trigger] self.devices@[i]).device != device,
            decreases self.devices@.len() - k,
        {
            if self.devices[k].device == device {
                return Some(k);
            }
            k = k + 1;
        }
        None
    }

    /// The device and position of the display of `swapchain`.
    fn find_display(&self, swapchain: u64) -> (r: Option<(usize, usize)>)
        ensures
            match r {
                Some((k, j)) => k < self.devices().len() && j < self.devices()[k as int].displays@.len()
                    && self.devices()[k as int].displays@[j as int].display.swapchain == swapchain,
                None => forall|i: int, j: int|
                    0 <= i < self.devices().len() && 0 <= j < self.devices()[i].displays@.len()
                        ==> (#[trigger] self.devices()[i].displays@[j]).display.swapchain
                        != swapchain,
            },
    {
        let mut k: usize = 0;
        while k < self.devices.len()
            invariant
                k <= self.devices@.len(),
                forall|i: int, j: int|
                    0 <= i < k && 0 <= j < self.devices@[i].displays@.len()
                        ==> (#[trigger] self.devices@[i].displays@[j]).display.swapchain
                        != swapchain,
            decreases self.devices@.len() - k,
        {
            let displays = &self.devices[k].displays;
            let mut j: usize = 0;
            while j < displays.len()
                invariant
                    j <= displays@.len(),
                    k < self.devices@.len(),
                    displays == self.devices@[k as int].displays,
                    forall|l: int| 0 <= l < j ==> (#[trigger] displays@[l]).display.swapchain != swapchain,
                decreases displays@.len() - j,
            {
                if displays[j].display.swapchain == swapchain {
                    return Some((k, j));
                }
                j = j + 1;
            }
            k = k + 1;
        }
        None
    }

    /// Follows one change of the displays. A display on a device not seen
    /// before builds that device's shared state; the last display of a
    /// device leaving tears it down.
    pub fn handle_display_event(&mut self, out: &mut Vec<EngineRequest>, event: DisplayEvent)
        requires
            old(self).wf(),
        ensures
            final(self).wf(),
            final(self).pending() == old(self).pending(),
            final(self).texture_limit() == old(self).texture_limit(),
            extends(old(out)@, final(out)@),
            no_pending_uploads(old(self).devices()) ==> no_pending_uploads(final(self).devices()),
            display_event_effect(
                old(self).devices(),
                final(self).devices(),
                event,
                final(out)@.subrange(old(out)@.len() as int, final(out)@.len() as int),
            ),
    {
        let ghost old_devices = self.devices@;
        let ghost o = out@;
        match event {
            DisplayEvent::SwapchainCreated { device, swapchain, size, format } => {
                match self.find_device(device) {
                    None => {
                        let d = DeviceResources::init_device_resources(
                            out,
                            device,
                            swapchain,
                            size,
                            format,
                            self.max_textures,
                        );
                        self.devices.push(d);
                        proof {
                            let r = out@.subrange(o.len() as int, out@.len() as int);
                            assert(self.devices@.drop_last() =~= old_devices);
                            assert(r.last() == out@.last());
                            assert(created(old_devices, self.devices@, device, swapchain, size, format, r));
                            assert(extends(o, out@)) by {
                                assert(out@.subrange(0, o.len() as int) =~= o);
                            }
                        }
                    },
                    Some(k) => {
                        self.devices[k].add_display(out, swapchain, size, format);
                        proof {
                            let r = out@.subrange(o.len() as int, out@.len() as int);
                            assert(r[2] == out@.last());
                            assert(attached(
                                old_devices,
                                self.devices@,
                                k as int,
                                DisplayResources {
                                    display: Display {
                                        device,
                                        swapchain,
                                        position: [0, 0],
                                        size,
                                        format,
                                    },
                                    render_pipeline_ready: old_devices[k as int].surfaces().len() > 0,
                                },
                                r,
                            ));
                            assert(display_event_effect(old_devices, self.devices@, event, r)) by {
                                assert(!(forall|i: int|
                                    0 <= i < old_devices.len() ==> (#[trigger] old_devices[i]).device
                                        != device));
                            }
                            assert(extends(o, out@)) by {
                                assert(out@.subrange(0, o.len() as int) =~= o);
                            }
                        }
                    },
                }
            },
            DisplayEvent::SwapchainDestroyed { swapchain } => {
                match self.find_display(swapchain) {
                    None => {
                        proof {
                            lemma_extends_refl(o);
                        }
                    },
                    Some((k, j)) => {
                        if self.devices[k].displays.len() > 1 {
                            self.devices[k].remove_display(out, j);
                        } else {
                            let gone = self.devices.remove(k);
                            out.push(EngineRequest::DropDevice { device: gone.device });
                        }
                        proof {
                            let r = out@.subrange(o.len() as int, out@.len() as int);
                            if old_devices[k as int].displays@.len() > 1 {
                                assert(r[1] == out@.last());
                            } else {
                                assert(r =~= seq![EngineRequest::DropDevice { device: old_devices[k as int].device }]);
                            }
                            assert(detached(old_devices, self.devices@, k as int, j as int, r));
                            assert(display_event_effect(old_devices, self.devices@, event, r));
                            assert(extends(o, out@)) by {
                                assert(out@.subrange(0, o.len() as int) =~= o);
                            }
                        }
                    },
                }
            },
            DisplayEvent::SwapchainUpdated { swapchain, size, format } => {
                match self.find_display(swapchain) {
                    None => {
                        proof {
                            lemma_extends_refl(o);
                        }
                    },
                    Some((k, j)) => {
                        self.devices[k].update_display(out, j, size, format);
                        proof {
                            let r = out@.subrange(o.len() as int, out@.len() as int);
                            assert(r.last() == out@.last());
                            assert(resized(old_devices, self.devices@, k as int, j as int, size, format, r));
                            assert(display_event_effect(old_devices, self.devices@, event, r));
                            assert(extends(o, out@)) by {
                                assert(out@.subrange(0, o.len() as int) =~= o);
                            }
                        }
                    },
                }
            },
        }
    }

    /// One tick: forgets last tick's uploads, follows the display changes,
    /// then applies the queued surface events. Returns the surface failures.
    pub fn update_resources(
        &mut self,
        out: &mut Vec<EngineRequest>,
        display_events: &Vec<DisplayEvent>,
    ) -> (errors: Vec<SurfaceError>)
        requires
            old(self).wf(),
        ensures
            final(self).wf(),
            final(self).pending() == Seq::<ScreenTaskEvent>::empty(),
            final(self).texture_limit() == old(self).texture_limit(),
            no_pending_uploads(final(self).devices()),
            extends(old(out)@, final(out)@),
            exists|mid: Seq<DeviceResources>, m: int|
                old(out)@.len() <= m <= final(out)@.len() && display_events_effect(
                    reset_uploads(old(self).devices()),
                    mid,
                    display_events@,
                    final(out)@.subrange(old(out)@.len() as int, m),
                ) && #[trigger] flushed(
                    mid,
                    final(self).devices(),
                    old(self).pending(),
                    errors@,
                    final(out)@.subrange(m, final(out)@.len() as int),
                ),
    {
        let ghost o = out@;
        let ghost old_devices = self.devices@;
        let mut k: usize = 0;
        while k < self.devices.len()
            invariant
                self.wf(),
                k <= self.devices@.len(),
                self.devices@.len() == old(self).devices@.len(),
                self.pending_events@ == old(self).pending_events@,
                self.max_textures == old(self).max_textures,
                forall|i: int| 0 <= i < k ==> !(#[trigger] self.devices@[i]).data_copy_command_buffer_updated,
                old_devices == old(self).devices@,
                forall|i: int|
                    0 <= i < k ==> #[trigger] self.devices@[i] == reset_uploads(old_devices)[i],
                forall|i: int| k <= i < old_devices.len() ==> #[trigger] self.devices@[i] == old_devices[i],
            decreases self.devices@.len() - k,
        {
            let ghost before = self.devices();
            self.devices[k].data_copy_command_buffer_updated = false;
            proof {
                assert forall|i: int| 0 <= i < self.devices@.len() implies (#[trigger] self.devices@[i]).wf() by {
                    assert(before[i].wf());
                }
                assert forall|i: int, j: int|
                    0 <= i < self.devices@.len() && 0 <= j < self.devices@.len() && i != j
                        implies #[trigger] self.devices@[i].device != #[trigger] self.devices@[j].device by {
                    assert(before[i].device != before[j].device);
                }
            }
            k = k + 1;
        }
        proof {
            lemma_extends_refl(o);
            assert(self.devices@ =~= reset_uploads(old_devices));
            assert(out@.subrange(o.len() as int, out@.len() as int) =~= Seq::<EngineRequest>::empty());
            assert(display_events@.subrange(0, 0) =~= Seq::<DisplayEvent>::empty());
        }
        let ghost reset = self.devices@;
        let mut e: usize = 0;
        while e < display_events.len()
            invariant
                self.wf(),
                e <= display_events@.len(),
                self.pending_events@ == old(self).pending_events@,
                self.max_textures == old(self).max_textures,
                no_pending_uploads(self.devices@),
                extends(o, out@),
                reset == reset_uploads(old(self).devices()),
                display_events_effect(
                    reset,
                    self.devices@,
                    display_events@.subrange(0, e as int),
                    out@.subrange(o.len() as int, out@.len() as int),
                ),
            decreases display_events@.len() - e,
        {
            let ghost o2 = out@;
            let ghost prev = self.devices@;
            self.handle_display_event(out, display_events[e]);
            proof {
                lemma_extends_trans(o, o2, out@);
                let evs = display_events@.subrange(0, e + 1);
                let x = out@.subrange(o.len() as int, out@.len() as int);
                let m = o2.len() - o.len();
                assert(evs.drop_last() =~= display_events@.subrange(0, e as int));
                assert(evs.last() == display_events@[e as int]);
                assert(x.subrange(0, m) =~= o2.subrange(o.len() as int, o2.len() as int));
                assert(x.subrange(m, x.len() as int) =~= out@.subrange(o2.len() as int, out@.len() as int));
                assert(display_events_effect(reset, prev, evs.drop_last(), x.subrange(0, m)));
                assert(display_event_effect(prev, self.devices@, evs.last(), x.subrange(m, x.len() as int)));
                assert(evs.len() == e + 1);
                assert(0 <= m <= x.len());
                lemma_display_events_step(reset, prev, self.devices@, evs, x, m);
            }
            e = e + 1;
        }
        let ghost mid = self.devices@;
        proof {
            assert(display_events@.subrange(0, e as int) =~= display_events@);
        }
        let ghost o3 = out@;
        let ghost before = self.devices();
        let errors = self.elaborate_events(out);
        proof {
            lemma_extends_trans(o, o3, out@);
            assert(out@.subrange(o.len() as int, o3.len() as int) =~= o3.subrange(
                o.len() as int,
                o3.len() as int,
            ));
            assert(flushed(
                mid,
                self.devices(),
                old(self).pending(),
                errors@,
                out@.subrange(o3.len() as int, out@.len() as int),
            ));
            assert forall|i: int| 0 <= i < self.devices().len() implies !(
            #[trigger] self.devices()[i]).data_copy_command_buffer_updated by {
                assert(!before[i].data_copy_command_buffer_updated);
            }
        }
        errors
    }

    /// Records whether the instance uploads asked of `device` this tick
    /// produced any commands.
    pub fn note_uploads(&mut self, device: u64, produced: bool)
        requires
            old(self).wf(),
        ensures
            final(self).wf(),
            final(self).pending() == old(self).pending(),
            final(self).texture_limit() == old(self).texture_limit(),
            final(self).devices().len() == old(self).devices().len(),
            forall|i: int|
                0 <= i < old(self).devices().len() ==> {
                    let a = #[trigger] old(self).devices()[i];
                    let b = final(self).devices()[i];
                    b == (DeviceResources {
                        data_copy_command_buffer_updated: a.data_copy_command_buffer_updated
                            || produced && a.device == device,
                        ..a
                    })
                },
    {
        if !produced {
            return;
        }
        match self.find_device(device) {
            None => {
                proof {
                    assert forall|i: int| 0 <= i < self.devices@.len() implies #[trigger] self.devices@[i]
                        == (DeviceResources {
                            data_copy_command_buffer_updated: self.devices@[i].data_copy_command_buffer_updated
                                || produced && self.devices@[i].device == device,
                            ..self.devices@[i]
                        }) by {}
                }
            },
            Some(k) => {
                let ghost before = self.devices();
                self.devices[k].data_copy_command_buffer_updated = true;
                proof {
                    assert forall|i: int| 0 <= i < self.devices@.len() implies (#[trigger] self.devices@[i]).wf() by {
                        assert(before[i].wf());
                    }
                    assert forall|i: int, j: int|
                        0 <= i < self.devices@.len() && 0 <= j < self.devices@.len() && i != j
                            implies #[trigger] self.devices@[i].device != #[trigger] self.devices@[j].device by {
                        assert(before[i].device != before[j].device);
                    }
                    assert forall|i: int| 0 <= i < before.len() implies #[trigger] self.devices@[i]
                        == (DeviceResources {
                            data_copy_command_buffer_updated: before[i].data_copy_command_buffer_updated
                                || produced && before[i].device == device,
                            ..before[i]
                        }) by {
                        if i != k {
                            assert(before[i].device != before[k as int].device);
                        }
                    }
                }
            },
        }
    }

    /// The command buffers this tick wants submitted, device by device.
    pub fn command_buffers(&self) -> (r: Vec<CommandBufferRef>)
        ensures
            r@ == command_buffers_of(self.devices()),
    {
        let mut r: Vec<CommandBufferRef> = Vec::new();
        let mut k: usize = 0;
        while k < self.devices.len()
            invariant
                k <= self.devices@.len(),
                r@ == command_buffers_of(self.devices@.subrange(0, k as int)),
            decreases self.devices@.len() - k,
        {
            let d = &self.devices[k];
            let ghost before = r@;
            let n = d.surface_manager.len();
            if n > 0 && n <= d.max_textures {
                r.push(CommandBufferRef { device: d.device, kind: CommandBufferKind::Draw });
            }
            if d.data_copy_command_buffer_updated {
                r.push(CommandBufferRef { device: d.device, kind: CommandBufferKind::DataCopy });
            }
            proof {
                let s = self.devices@.subrange(0, k + 1);
                assert(s.drop_last() =~= self.devices@.subrange(0, k as int));
                assert(s.last() == self.devices@[k as int]);
                assert(r@ =~= before + device_command_buffers(*d));
            }
            k = k + 1;
        }
        assert(self.devices@.subrange(0, k as int) =~= self.devices@);
        r
    }

    /// The state kept for `device`, if it has a display.
    pub fn device_resources(&self, device: u64) -> (r: Option<&DeviceResources>)
        ensures
            match r {
                Some(d) => d.device == device && self.devices().contains(*d),
                None => forall|i: int|
                    0 <= i < self.devices().len() ==> (#[trigger] self.devices()[i]).device != device,
            },
    {
        match self.find_device(device) {
            Some(k) => Some(&self.devices[k]),
            None => None,
        }
    }

    /// Applies every queued event to every device, in order, then walks the
    /// cascade on each device if some event created or removed a surface,
    /// and asks for the instance uploads. Returns the failures met, none of
    /// which stopped the batch.
    pub fn elaborate_events(&mut self, out: &mut Vec<EngineRequest>) -> (errors: Vec<SurfaceError>)
        requires
            old(self).wf(),
        ensures
            final(self).wf(),
            final(self).pending() == Seq::<ScreenTaskEvent>::empty(),
            final(self).texture_limit() == old(self).texture_limit(),
            extends(old(out)@, final(out)@),
            flushed(
                old(self).devices(),
                final(self).devices(),
                old(self).pending(),
                errors@,
                final(out)@.subrange(old(out)@.len() as int, final(out)@.len() as int),
            ),
    {
        let mut events: Vec<ScreenTaskEvent> = Vec::new();
        std::mem::swap(&mut events, &mut self.pending_events);
        let ghost start = self.devices@;
        let ghost old_out = out@;
        let ghost n = self.devices@.len();
        let mut errors: Vec<SurfaceError> = Vec::new();
        let mut structural = false;
        proof {
            assert forall|i: int| 0 <= i < n implies (#[trigger] start[i]).wf() by {
                assert(old(self).devices()[i].wf());
            }
            assert forall|i: int| 0 <= i < n implies same_outside_surfaces(
                #[trigger] start[i],
                self.devices@[i],
            ) by {
                assert(start[i].wf());
            }
            lemma_extends_refl(old_out);
            assert(out@.subrange(old_out.len() as int, out@.len() as int) =~= Seq::<
                EngineRequest,
            >::empty());
        }
        let mut e: usize = 0;
        while e < events.len()
            invariant
                self.pending_events@ == Seq::<ScreenTaskEvent>::empty(),
                self.max_textures == old(self).max_textures,
                self.devices@.len() == n,
                start.len() == n,
                start == old(self).devices@,
                events@ == old(self).pending_events@,
                e <= events@.len(),
                forall|i: int|
                    0 <= i < n ==> same_outside_surfaces(
                        #[trigger] start[i],
                        self.devices@[i],
                    ),
                forall|i: int|
                    0 <= i < n ==> (#[trigger] self.devices@[i]).surface_manager.live_ids()
                        == ids_after(start[i].surface_manager.live_ids(), events@.subrange(0, e as int)),
                structural == has_structural(events@.subrange(0, e as int)),
                !structural ==> forall|i: int|
                    0 <= i < n ==> keeps_bindings(
                        (#[trigger] start[i]).surfaces(),
                        self.devices@[i].surfaces(),
                    ),
                extends(old_out, out@),
                no_rebuilds(out@.subrange(old_out.len() as int, out@.len() as int)),
                forall|i: int| 0 <= i < n ==> (#[trigger] start[i]).wf(),
                errors@ == batch_errors(start, events@.subrange(0, e as int)),
                forall|i: int|
                    0 <= i < n ==> (#[trigger] self.devices@[i]).surfaces() == slots_after(
                        start[i].surfaces(),
                        events@.subrange(0, e as int),
                    ),
            decreases events@.len() - e,
        {
            let event = &events[e];
            let ghost before = self.devices@;
            let mut d: usize = 0;
            while d < self.devices.len()
                invariant
                    self.devices@.len() == n,
                    start.len() == n,
                    d <= n,
                    event == events@[e as int],
                    forall|i: int|
                        0 <= i < d ==> same_outside_surfaces(
                            #[trigger] before[i],
                            self.devices@[i],
                        ),
                    forall|i: int|
                        0 <= i < d ==> (#[trigger] self.devices@[i]).surface_manager.live_ids()
                            == crate::events::step_ids(before[i].surface_manager.live_ids(), *event),
                    forall|i: int|
                        0 <= i < d && !is_structural(*event) ==> keeps_bindings(
                            (#[trigger] before[i]).surfaces(),
                            self.devices@[i].surfaces(),
                        ),
                    forall|i: int| d <= i < n ==> #[trigger] self.devices@[i] == before[i],
                    forall|i: int|
                        0 <= i < n ==> (#[trigger] before[i]).surface_manager.wf()
                            && before[i].surface_manager.device_id() == before[i].device,
                    extends(old_out, out@),
                    no_rebuilds(out@.subrange(old_out.len() as int, out@.len() as int)),
                    self.pending_events@ == Seq::<ScreenTaskEvent>::empty(),
                    self.max_textures == old(self).max_textures,
                    e < events@.len(),
                    forall|i: int|
                        0 <= i < n ==> (#[trigger] before[i]).surface_manager.live_ids() == ids_after(
                            start[i].surface_manager.live_ids(),
                            events@.subrange(0, e as int),
                        ) && before[i].device == start[i].device,
                    errors@ == batch_errors(start, events@.subrange(0, e as int)) + event_errors(
                        start.subrange(0, d as int),
                        events@.subrange(0, e as int),
                        *event,
                    ),
                    forall|i: int|
                        0 <= i < n ==> (#[trigger] before[i]).surfaces() == slots_after(
                            start[i].surfaces(),
                            events@.subrange(0, e as int),
                        ),
                    forall|i: int|
                        0 <= i < d ==> (#[trigger] self.devices@[i]).surfaces() == step_slots(
                            before[i].surfaces(),
                            *event,
                        ),
                decreases n - d,
            {
                let ghost o = out@;
                self.devices[d].apply_event(out, &mut errors, event);
                proof {
                    lemma_no_rebuilds_join(o, out@, old_out.len() as int);
                    lemma_extends_trans(old_out, o, out@);
                    let sd = start.subrange(0, d + 1);
                    assert(sd.drop_last() =~= start.subrange(0, d as int));
                    assert(sd.last() == start[d as int]);
                    assert(errors@ =~= batch_errors(start, events@.subrange(0, e as int))
                        + event_errors(sd, events@.subrange(0, e as int), *event));
                }
                d = d + 1;
            }
            proof {
                let ev = events@.subrange(0, e + 1);
                assert(ev.drop_last() =~= events@.subrange(0, e as int));
                assert(ev.last() == events@[e as int]);
                assert(start.subrange(0, n as int) =~= start);
                assert(errors@ =~= batch_errors(start, ev));
                assert forall|i: int|
                    0 <= i < n implies same_outside_surfaces(
                    #[trigger] start[i],
                    self.devices@[i],
                ) by {
                    assert(same_outside_surfaces(before[i], self.devices@[i]));
                }
                if is_structural(*event) {
                    assert(has_structural(ev)) by {
                        assert(is_structural(ev[e as int]));
                    }
                } else {
                    if !has_structural(events@.subrange(0, e as int)) {
                        assert(!has_structural(ev)) by {
                            assert forall|k: int| 0 <= k < ev.len() implies !is_structural(
                                #[trigger] ev[k],
                            ) by {
                                if k < e {
                                    assert(ev[k] == events@.subrange(0, e as int)[k]);
                                }
                            }
                        }
                    } else {
                        let k = choose|k: int|
                            0 <= k < e && is_structural(
                                #[trigger] events@.subrange(0, e as int)[k],
                            );
                        assert(ev[k] == events@.subrange(0, e as int)[k]);
                    }
                }
            }
            if is_event_structural(event) {
                structural = true;
            }
            e = e + 1;
        }
        assert(events@.subrange(0, e as int) =~= events@);
        let ghost applied = self.devices@;
        proof {
            if !structural {
                assert forall|i: int| 0 <= i < n implies (#[trigger] applied[i]).wf() by {
                    lemma_keeps_wf(start[i], applied[i]);
                }
            }
        }
        let ghost out_applied = out@;
        proof {
            lemma_extends_refl(out_applied);
            assert(start.subrange(0, 0) =~= Seq::<DeviceResources>::empty());
            assert(out@.subrange(out_applied.len() as int, out@.len() as int) =~= Seq::<
                EngineRequest,
            >::empty());
        }
        let mut d: usize = 0;
        while d < self.devices.len()
            invariant
                self.devices@.len() == n,
                start.len() == n,
                applied.len() == n,
                d <= n,
                forall|i: int|
                    0 <= i < n ==> same_outside_surfaces(#[trigger] start[i], applied[i]),
                forall|i: int|
                    0 <= i < n ==> (#[trigger] applied[i]).surface_manager.live_ids() == ids_after(
                        start[i].surface_manager.live_ids(),
                        old(self).pending_events@,
                    ),
                forall|i: int| 0 <= i < n ==> (#[trigger] start[i]).wf(),
                forall|i: int|
                    0 <= i < n ==> (#[trigger] applied[i]).surfaces() == slots_after(
                        start[i].surfaces(),
                        old(self).pending_events@,
                    ),
                !structural ==> forall|i: int| 0 <= i < n ==> (#[trigger] applied[i]).wf(),
                forall|i: int|
                    0 <= i < d ==> finished(#[trigger] applied[i], self.devices@[i], structural),
                forall|i: int| d <= i < n ==> #[trigger] self.devices@[i] == applied[i],
                extends(out_applied, out@),
                !structural ==> no_rebuilds(
                    out@.subrange(out_applied.len() as int, out@.len() as int),
                ),
                self.pending_events@ == Seq::<ScreenTaskEvent>::empty(),
                self.max_textures == old(self).max_textures,
                structural == has_structural(old(self).pending_events@),
                errors@ == batch_errors(start, old(self).pending_events@) + capacity_errors(
                    start.subrange(0, d as int),
                    old(self).pending_events@,
                ),
                finish_all(
                    start.subrange(0, d as int),
                    old(self).pending_events@,
                    out@.subrange(out_applied.len() as int, out@.len() as int),
                ),
            decreases n - d,
        {
            let ghost o = out@;
            let ghost errors_before = errors@;
            finish_device(&mut self.devices[d], out, &mut errors, structural);
            proof {
                lemma_extends_trans(out_applied, o, out@);
                if !structural {
                    lemma_no_rebuilds_join(o, out@, out_applied.len() as int);
                }
                let i = d as int;
                let sd = start.subrange(0, i + 1);
                assert(sd.drop_last() =~= start.subrange(0, i));
                assert(sd.last() == start[i]);
                assert(applied[i].surfaces().len() == applied[i].surface_manager.live_ids().len());
                assert(same_outside_surfaces(start[i], applied[i]));
                assert(errors@ =~= batch_errors(start, old(self).pending_events@) + capacity_errors(
                    sd,
                    old(self).pending_events@,
                ));
                let x = out@.subrange(out_applied.len() as int, out@.len() as int);
                let m = o.len() - out_applied.len();
                assert(x.subrange(0, m) =~= o.subrange(out_applied.len() as int, o.len() as int));
                assert(x.subrange(m, x.len() as int) =~= out@.subrange(o.len() as int, out@.len() as int));
                assert(finish_requests(
                    sd.last(),
                    slots_after(sd.last().surfaces(), old(self).pending_events@),
                    has_structural(old(self).pending_events@),
                    x.subrange(m, x.len() as int),
                ));
                assert(finish_all(sd, old(self).pending_events@, x));
            }
            d = d + 1;
        }
        proof {
            assert(start.subrange(0, n as int) =~= start);
            lemma_extends_trans(old_out, out_applied, out@);
            if !structural {
                let m = old_out.len() as int;
                lemma_no_rebuilds_join(out_applied, out@, m);
                assert forall|j: int| m <= j < out@.len() implies !(#[trigger] out@[j] is RenderPipeline) by {
                    assert(out@.subrange(m, out@.len() as int)[j - m] == out@[j]);
                }
            }
            assert forall|i: int| 0 <= i < n implies (#[trigger] self.devices@[i]).wf() by {
                assert(finished(applied[i], self.devices@[i], structural));
            }
            assert forall|i: int| 0 <= i < n implies #[trigger] self.devices@[i].device
                == start[i].device by {
                assert(finished(applied[i], self.devices@[i], structural));
                assert(same_outside_surfaces(start[i], applied[i]));
            }
            assert forall|i: int, j: int|
                0 <= i < n && 0 <= j < n && i != j implies #[trigger] self.devices@[i].device
                != #[trigger] self.devices@[j].device by {
                assert(old(self).devices()[i].device != old(self).devices()[j].device);
            }
            let a = out_applied.len() as int;
            let m = old_out.len() as int;
            assert(out@.subrange(m, a) =~= out_applied.subrange(m, a));
            assert(requests_of_flush(
                start,
                old(self).pending_events@,
                out@.subrange(m, out@.len() as int),
            )) by {
                let r = out@.subrange(m, out@.len() as int);
                assert(r.subrange(0, a - m) =~= out_applied.subrange(m, a));
                assert(r.subrange(a - m, r.len() as int) =~= out@.subrange(a, out@.len() as int));
            }
        }
        errors
    }
}

/// `r` is what finishing device `a` sends once its surfaces are `s`: the
/// cascade when `structural` (only the image-index writes when the texture
/// array is over its limit), then the request to flush its instance writes.
pub open spec fn finish_requests(
    a: DeviceResources,
    s: Seq<SurfaceSlot>,
    structural: bool,
    r: Seq<EngineRequest>,
) -> bool {
    &&& r.len() >= 1
    &&& r.last() == (EngineRequest::FlushInstances { device: a.device })
    &&& if !structural {
        r.len() == 1
    } else if s.len() <= a.max_textures {
        is_cascade(a.device, s, a.displays@, r.drop_last())
    } else {
        r.drop_last() == index_writes(a.device, s)
    }
}

/// `r` is what finishing each device of `ds` after `events` sends, device
/// after device.
pub open spec fn finish_all(
    ds: Seq<DeviceResources>,
    events: Seq<ScreenTaskEvent>,
    r: Seq<EngineRequest>,
) -> bool
    decreases ds.len(),
{
    if ds.len() == 0 {
        r.len() == 0
    } else {
        exists|m: int|
            0 <= m <= r.len() && finish_all(ds.drop_last(), events, r.subrange(0, m))
                && finish_requests(
                ds.last(),
                slots_after(ds.last().surfaces(), events),
                has_structural(events),
                #[trigger] r.subrange(m, r.len() as int),
            )
    }
}

/// `r` is what a flush of `events` over devices `ds` sends: the requests of
/// the events themselves, none of which rebuilds a descriptor, then what
/// finishing each device sends.
pub open spec fn requests_of_flush(
    ds: Seq<DeviceResources>,
    events: Seq<ScreenTaskEvent>,
    r: Seq<EngineRequest>,
) -> bool {
    exists|m: int|
        0 <= m <= r.len() && no_rebuilds(r.subrange(0, m)) && finish_all(
            ds,
            events,
            #[trigger] r.subrange(m, r.len() as int),
        )
}

/// A flush of `events` takes devices `a` to `b`, failing with `errors` and
/// sending `r`.
pub open spec fn flushed(
    a: Seq<DeviceResources>,
    b: Seq<DeviceResources>,
    events: Seq<ScreenTaskEvent>,
    errors: Seq<SurfaceError>,
    r: Seq<EngineRequest>,
) -> bool {
    &&& b.len() == a.len()
    &&& errors == batch_errors(a, events) + capacity_errors(a, events)
    &&& requests_of_flush(a, events, r)
    &&& forall|i: int|
        0 <= i < a.len() ==> {
            let x = #[trigger] a[i];
            let y = b[i];
            &&& y.device == x.device
            &&& y.max_textures == x.max_textures
            &&& y.data_copy_command_buffer_updated == x.data_copy_command_buffer_updated
            &&& y.surface_manager.live_ids() == ids_after(x.surface_manager.live_ids(), events)
            &&& y.surfaces() == surfaces_after(x, events)
            &&& y.displays@.len() == x.displays@.len()
            &&& forall|j: int|
                0 <= j < x.displays@.len() ==> (#[trigger] y.displays@[j]).display
                    == x.displays@[j].display
            &&& !has_structural(events) ==> y.displays == x.displays
        }
    &&& !has_structural(events) ==> no_rebuilds(r)
}

/// `b` follows from `a` by the display events `evs` in order, which send `r`.
pub open spec fn display_events_effect(
    a: Seq<DeviceResources>,
    b: Seq<DeviceResources>,
    evs: Seq<DisplayEvent>,
    r: Seq<EngineRequest>,
) -> bool
    decreases evs.len(),
{
    if evs.len() == 0 {
        b == a && r.len() == 0
    } else {
        exists|mid: Seq<DeviceResources>, m: int|
            0 <= m <= r.len() && display_events_effect(a, mid, evs.drop_last(), r.subrange(0, m))
                && #[trigger] display_event_effect(mid, b, evs.last(), r.subrange(m, r.len() as int))
    }
}

pub proof fn lemma_display_events_step(
    a: Seq<DeviceResources>,
    mid: Seq<DeviceResources>,
    b: Seq<DeviceResources>,
    evs: Seq<DisplayEvent>,
    r: Seq<EngineRequest>,
    m: int,
)
    requires
        evs.len() > 0,
        0 <= m <= r.len(),
        display_events_effect(a, mid, evs.drop_last(), r.subrange(0, m)),
        display_event_effect(mid, b, evs.last(), r.subrange(m, r.len() as int)),
    ensures
        display_events_effect(a, b, evs, r),
{
}

/// What finishing a tick leaves of device `a` in `b`.
pub open spec fn finished(a: DeviceResources, b: DeviceResources, structural: bool) -> bool {
    &&& b.wf()
    &&& b.device == a.device
    &&& b.max_textures == a.max_textures
    &&& b.data_copy_command_buffer_updated == a.data_copy_command_buffer_updated
    &&& b.surface_manager.live_ids() == a.surface_manager.live_ids()
    &&& b.surfaces() == if structural {
        reconciled(a.surfaces())
    } else {
        a.surfaces()
    }
    &&& b.displays@.len() == a.displays@.len()
    &&& forall|j: int|
        0 <= j < a.displays@.len() ==> (#[trigger] b.displays@[j]).display == a.displays@[j].display
    &&& !structural ==> b.displays == a.displays
}

/// Walks the cascade on `dev` if the set of live surfaces may have changed,
/// then asks for its instance uploads.
fn finish_device(
    dev: &mut DeviceResources,
    out: &mut Vec<EngineRequest>,
    errors: &mut Vec<SurfaceError>,
    structural: bool,
)
    requires
        old(dev).surface_manager.wf(),
        old(dev).surface_manager.device_id() == old(dev).device,
        old(dev).displays@.len() > 0,
        !structural ==> old(dev).wf(),
    ensures
        finished(*old(dev), *final(dev), structural),
        extends(old(out)@, final(out)@),
        final(errors)@ == old(errors)@ + if structural && !old(dev).within_limit() {
            seq![SurfaceError::CapacityExceeded { device: old(dev).device }]
        } else {
            Seq::<SurfaceError>::empty()
        },
        !structural ==> no_rebuilds(
            final(out)@.subrange(old(out)@.len() as int, final(out)@.len() as int),
        ),
        finish_requests(
            *old(dev),
            old(dev).surfaces(),
            structural,
            final(out)@.subrange(old(out)@.len() as int, final(out)@.len() as int),
        ),
{
    let ghost o = out@;
    let ghost errors_before = errors@;
    if structural {
        let r = dev.update_layout_and_bind_groups(out);
        if let Err(err) = r {
            errors.push(err);
        }
    }
    assert(errors@ =~= errors_before + if structural && !old(dev).within_limit() {
        seq![SurfaceError::CapacityExceeded { device: old(dev).device }]
    } else {
        Seq::<SurfaceError>::empty()
    });
    let ghost o2 = out@;
    dev.surface_manager.update(out);
    proof {
        assert(extends(o2, out@)) by {
            assert(out@.subrange(0, o2.len() as int) =~= o2);
        }
        if structural {
            if old(dev).within_limit() {
                lemma_extends_trans(o, o2, out@);
            } else {
                lemma_extends_refl(o);
                lemma_extends_trans(o, o2, out@);
            }
            assert forall|j: int| 0 <= j < old(dev).displays@.len() implies (
            #[trigger] dev.displays@[j]).display == old(dev).displays@[j].display by {}
            let r = out@.subrange(o.len() as int, out@.len() as int);
            assert(r.drop_last() =~= o2.subrange(o.len() as int, o2.len() as int));
            assert(r.last() == out@.last());
            if !old(dev).within_limit() {
                assert(o2.subrange(o.len() as int, o2.len() as int) =~= index_writes(
                    old(dev).device,
                    old(dev).surfaces(),
                ));
            }
        } else {
            assert(o2 == o);
            assert(out@.subrange(o.len() as int, out@.len() as int) =~= seq![out@.last()]);
        }
    }
}

/// On every device, each live surface's image index selects that surface's
/// own texture view among the pool's ordered views; on a device whose
/// texture array fits its limit, also in the bound texture array.
pub proof fn lemma_device_index_consistency(t: ScreenTask, i: int)
    requires
        t.wf(),
        0 <= i < t.devices().len(),
    ensures
        ({
            let d = t.devices()[i];
            let s = d.surfaces();
            forall|k: int|
                0 <= k < s.len() ==> {
                    &&& views_of(s)[(#[trigger] s[k]).data.image_index as int]
                        == s[k].info.texture_view_id
                    &&& d.within_limit() ==> d.bind_group_views@[s[k].data.image_index as int]
                        == s[k].info.texture_view_id
                }
        }),
{
    let d = t.devices()[i];
    assert(d.wf());
    crate::surface_manager::lemma_index_consistency(d.surfaces());
}

/// A device without live surfaces binds no texture array, and every one of
/// its displays has a pipeline without fragment stage.
pub proof fn lemma_empty_device_has_no_texture_array(t: ScreenTask, i: int)
    requires
        t.wf(),
        0 <= i < t.devices().len(),
        t.devices()[i].surfaces().len() == 0,
    ensures
        t.devices()[i].texture_binding_count == 0,
        t.devices()[i].bind_group_views@.len() == 0,
        forall|j: int|
            0 <= j < t.devices()[i].displays@.len() ==> !(#[trigger] t.devices()[i].displays@[j]).render_pipeline_ready,
{
    assert(t.devices()[i].wf());
}

pub proof fn lemma_command_buffers_name_devices(ds: Seq<DeviceResources>)
    ensures
        forall|k: int|
            0 <= k < command_buffers_of(ds).len() ==> exists|j: int|
                0 <= j < ds.len() && (#[trigger] command_buffers_of(ds)[k]).device == ds[j].device,
    decreases ds.len(),
{
    if ds.len() > 0 {
        let init = ds.drop_last();
        lemma_command_buffers_name_devices(init);
        let c = command_buffers_of(ds);
        assert forall|k: int| 0 <= k < c.len() implies exists|j: int|
            0 <= j < ds.len() && (#[trigger] c[k]).device == ds[j].device by {
            let ci = command_buffers_of(init);
            if k < ci.len() {
                assert(c[k] == ci[k]);
                let j = choose|j: int| 0 <= j < init.len() && ci[k].device == init[j].device;
                assert(init[j] == ds[j]);
            } else {
                assert(c[k] == device_command_buffers(ds.last())[k - ci.len()]);
                assert(ds.last() == ds[ds.len() - 1]);
            }
        }
    }
}

/// A device without live surfaces has its draw left out of the command
/// buffers to submit.
pub proof fn lemma_no_draw_without_surfaces(ds: Seq<DeviceResources>, i: int)
    requires
        0 <= i < ds.len(),
        ds[i].surfaces().len() == 0,
        forall|a: int, b: int|
            0 <= a < ds.len() && 0 <= b < ds.len() && a != b ==> #[trigger] ds[a].device
                != #[trigger] ds[b].device,
    ensures
        !command_buffers_of(ds).contains(
            CommandBufferRef { device: ds[i].device, kind: CommandBufferKind::Draw },
        ),
    decreases ds.len(),
{
    let init = ds.drop_last();
    let target = CommandBufferRef { device: ds[i].device, kind: CommandBufferKind::Draw };
    let c = command_buffers_of(ds);
    let ci = command_buffers_of(init);
    let tail = device_command_buffers(ds.last());
    assert(c == ci + tail);
    if i == ds.len() - 1 {
        lemma_command_buffers_name_devices(init);
        assert forall|k: int| 0 <= k < c.len() implies c[k] != target by {
            if k < ci.len() {
                assert(c[k] == ci[k]);
                let j = choose|j: int| 0 <= j < init.len() && (#[trigger] ci[k]).device == init[j].device;
                assert(init[j] == ds[j]);
            } else {
                assert(c[k] == tail[k - ci.len()]);
            }
        }
    } else {
        assert(init[i] == ds[i]);
        lemma_no_draw_without_surfaces(init, i);
        assert forall|k: int| 0 <= k < c.len() implies c[k] != target by {
            if k < ci.len() {
                assert(c[k] == ci[k]);
            } else {
                assert(c[k] == tail[k - ci.len()]);
                assert(ds.last() == ds[ds.len() - 1]);
            }
        }
    }
}

/// A device with live surfaces, whose texture array fits its limit, has its
/// draw among the command buffers to submit.
pub proof fn lemma_draw_with_surfaces(ds: Seq<DeviceResources>, i: int)
    requires
        0 <= i < ds.len(),
        ds[i].surfaces().len() > 0,
        ds[i].within_limit(),
    ensures
        command_buffers_of(ds).contains(
            CommandBufferRef { device: ds[i].device, kind: CommandBufferKind::Draw },
        ),
    decreases ds.len(),
{
    let init = ds.drop_last();
    let target = CommandBufferRef { device: ds[i].device, kind: CommandBufferKind::Draw };
    let c = command_buffers_of(ds);
    let ci = command_buffers_of(init);
    let tail = device_command_buffers(ds.last());
    assert(c == ci + tail);
    if i == ds.len() - 1 {
        assert(ds.last() == ds[i]);
        assert(tail[0] == target);
        assert(c[ci.len() as int] == target);
    } else {
        assert(init[i] == ds[i]);
        lemma_draw_with_surfaces(init, i);
        let k = choose|k: int| 0 <= k < ci.len() && ci[k] == target;
        assert(c[k] == target);
    }
}

fn is_event_structural(event: &ScreenTaskEvent) -> (r: bool)
    ensures
        r == is_structural(*event),
{
    match event {
        ScreenTaskEvent::CreateSurface { .. } => true,
        ScreenTaskEvent::RemoveSurface { .. } => true,
        _ => false,
    }
}

} // verus!
