use vstd::prelude::*;
use crate::display::{Display, DisplayResources};
use crate::error::SurfaceError;
use crate::projection::{Projection, MAX_SURFACE_COUNT};
use crate::events::{
    event_error, is_structural, lemma_drop_id_absent, lemma_drop_id_is_remove, lemma_map_id,
    lemma_map_id_absent, lemma_without_absent, lemma_without_is_remove, step_ids, step_slots,
    ScreenTaskEvent,
};
use crate::requests::{extends, PUSH_CONSTANT_BYTES, no_rebuilds, DrawPlan, EngineRequest, RenderPassPlan};
use crate::requests::InstanceField;
use crate::surface::{pixel_bytes, source_info, texture_plan, SurfaceSource, TextureFormat, TexturePlan};
use crate::surface_manager::{
    data_upload, new_slot, reusable, MAX_SURFACES, create_requests, ids_of, index_writes, indices_consistent, lemma_reconciled_keeps_ids,
    reconciled, source_requests, upload_requests, views_of, SurfaceManager, SurfaceSlot,
};

verus! {

/// The render pass of display `d` when `n` surfaces are live: it draws all
/// of them through the display's projection, or nothing when there are none.
pub open spec fn pass_of(d: DisplayResources, n: nat) -> RenderPassPlan {
    RenderPassPlan {
        swapchain: d.display.swapchain,
        draw: if n > 0 {
            Some(
                DrawPlan {
                    projection: Projection {
                        width: d.display.size[0],
                        height: d.display.size[1],
                        max_surface_count: MAX_SURFACE_COUNT,
                    },
                    instance_count: n as u32,
                },
            )
        } else {
            None
        },
    }
}

pub open spec fn passes_of(ds: Seq<DisplayResources>, n: nat) -> Seq<RenderPassPlan> {
    Seq::new(ds.len(), |i: int| pass_of(ds[i], n))
}

/// The pipeline rebuilds that bring every display of `ds` to readiness
/// `ready`: one for each display whose readiness differs, in order.
pub open spec fn pipeline_requests(device: u64, ds: Seq<DisplayResources>, ready: bool) -> Seq<
    EngineRequest,
>
    decreases ds.len(),
{
    if ds.len() == 0 {
        seq![]
    } else {
        pipeline_requests(device, ds.drop_last(), ready) + if ds.last().render_pipeline_ready
            != ready {
            seq![
                EngineRequest::RenderPipeline {
                    device,
                    swapchain: ds.last().display.swapchain,
                    format: ds.last().display.format,
                    fragment: ready,
                },
            ]
        } else {
            seq![]
        }
    }
}

pub open spec fn with_ready(ds: Seq<DisplayResources>, ready: bool) -> Seq<DisplayResources> {
    ds.map_values(|d: DisplayResources| DisplayResources { render_pipeline_ready: ready, ..d })
}

pub open spec fn all_ready(ds: Seq<DisplayResources>, ready: bool) -> bool {
    forall|i: int| 0 <= i < ds.len() ==> (#[trigger] ds[i]).render_pipeline_ready == ready
}

pub open spec fn is_bind_group(r: EngineRequest, device: u64, views: Seq<u64>) -> bool {
    match r {
        EngineRequest::BindGroup { device: d, views: v } => d == device && v@ == views,
        _ => false,
    }
}

pub open spec fn is_command_buffer(
    r: EngineRequest,
    device: u64,
    passes: Seq<RenderPassPlan>,
) -> bool {
    match r {
        EngineRequest::CommandBuffer { device: d, passes: p } => d == device && p@ == passes,
        _ => false,
    }
}

/// `r` is the cascade that rebuilds the bindings of a device whose surfaces
/// are `s` and whose displays are `ds`: bind-group layout, pipeline layout,
/// image indices, bind group, the pipelines whose readiness flips, and the
/// command buffer.
pub open spec fn is_cascade(
    device: u64,
    s: Seq<SurfaceSlot>,
    ds: Seq<DisplayResources>,
    r: Seq<EngineRequest>,
) -> bool {
    let n = s.len();
    let w = index_writes(device, s);
    let p = pipeline_requests(device, ds, n > 0);
    let a = w.len() as int;
    let b = p.len() as int;
    &&& r.len() == a + b + 4
    &&& r[0] == EngineRequest::BindGroupLayout { device, texture_count: n as usize }
    &&& r[1] == EngineRequest::PipelineLayout { device, push_constant_bytes: PUSH_CONSTANT_BYTES }
    &&& r.subrange(2, 2 + a) == w
    &&& is_bind_group(r[2 + a], device, views_of(s))
    &&& r.subrange(3 + a, 3 + a + b) == p
    &&& is_command_buffer(r.last(), device, passes_of(with_ready(ds, n > 0), n))
}

/// `b` binds the same texture array as `a`, with the same image indices.
pub open spec fn keeps_bindings(a: Seq<SurfaceSlot>, b: Seq<SurfaceSlot>) -> bool {
    &&& a.len() == b.len()
    &&& views_of(a) == views_of(b)
    &&& forall|k: int| 0 <= k < a.len() ==> (#[trigger] a[k]).data.image_index == b[k].data.image_index
}

pub proof fn lemma_update_keeps_bindings(s: Seq<SurfaceSlot>, k: int, x: SurfaceSlot)
    requires
        0 <= k < s.len(),
        x.info.texture_view_id == s[k].info.texture_view_id,
        x.data.image_index == s[k].data.image_index,
    ensures
        keeps_bindings(s, s.update(k, x)),
{
    assert(views_of(s) =~= views_of(s.update(k, x)));
}

pub proof fn lemma_upload_no_rebuilds(device: u64, texture: u64, source: crate::surface::SurfaceSource)
    ensures
        no_rebuilds(upload_requests(device, texture, source)),
{
}

/// `r` is the upload of `pixels` over the whole of `texture`, laid out as
/// `plan` says, or nothing when there are no pixels.
pub open spec fn upload_of(
    device: u64,
    texture: u64,
    plan: TexturePlan,
    pixels: Option<Seq<u8>>,
    r: Seq<EngineRequest>,
) -> bool {
    match pixels {
        Some(bytes) => r.len() == 1 && match r[0] {
            EngineRequest::WriteTexture { device: d, upload } => d == device && upload.texture
                == texture && upload.data@ == bytes && upload.width == plan.width && upload.height
                == plan.height && upload.bytes_per_row == plan.bytes_per_row
                && upload.rows_per_image == plan.rows_per_image,
            _ => false,
        },
        None => r.len() == 0,
    }
}

pub proof fn lemma_upload_of(device: u64, texture: u64, source: SurfaceSource)
    ensures
        upload_of(
            device,
            texture,
            texture_plan(source_info(source)),
            pixel_bytes(source),
            upload_requests(device, texture, source),
        ),
{
}

/// `r` is what event `e` sends on a device `device` whose surfaces are `s`.
pub open spec fn event_requests(
    device: u64,
    s: Seq<SurfaceSlot>,
    e: ScreenTaskEvent,
    r: Seq<EngineRequest>,
) -> bool {
    let ids = ids_of(s);
    match e {
        ScreenTaskEvent::CreateSurface { id, label, source, position, size } => {
            if ids.contains(id) || s.len() >= MAX_SURFACES {
                r.len() == 0
            } else {
                let slot = new_slot(id, source_info(source), position, size, s.len() as int);
                let plan = texture_plan(source_info(source));
                &&& r.len() >= 2
                &&& match r[0] {
                    EngineRequest::CreateTexture { device: d, label: l, texture, view, plan: p } => d
                        == device && l@ == label@ && texture == slot.info.texture_id && view
                        == slot.info.texture_view_id && p == plan,
                    _ => false,
                }
                &&& upload_of(
                    device,
                    slot.info.texture_id,
                    plan,
                    pixel_bytes(source),
                    r.subrange(1, r.len() - 1),
                )
                &&& r.last() == (EngineRequest::RequestInstance { device, id, data: slot.data })
            }
        },
        ScreenTaskEvent::UpdateSource { id, source } => {
            &&& !ids.contains(id) ==> r.len() == 0
            &&& forall|k: int|
                0 <= k < s.len() && (#[trigger] s[k]).id == id ==> {
                    let x = s[k];
                    let plan = texture_plan(source_info(source));
                    if reusable(x.info.info, source_info(source)) {
                        upload_of(device, x.info.texture_id, plan, pixel_bytes(source), r)
                    } else {
                        &&& r.len() >= 1
                        &&& r[0] == (EngineRequest::ReplaceTexture {
                            device,
                            texture: x.info.texture_id,
                            view: x.info.texture_view_id,
                            plan,
                        })
                        &&& upload_of(
                            device,
                            x.info.texture_id,
                            plan,
                            pixel_bytes(source),
                            r.subrange(1, r.len() as int),
                        )
                    }
                }
        },
        ScreenTaskEvent::UpdateData { id, data } => {
            &&& !ids.contains(id) ==> r.len() == 0
            &&& forall|k: int|
                0 <= k < s.len() && (#[trigger] s[k]).id == id ==> {
                    let u = data_upload(s[k], data);
                    &&& r.len() == 1
                    &&& match r[0] {
                        EngineRequest::WriteTexture { device: d, upload } => d == device
                            && upload.texture == u.texture && upload.data@ == data@ && upload.width
                            == u.width && upload.height == u.height && upload.bytes_per_row
                            == u.bytes_per_row && upload.rows_per_image == u.rows_per_image,
                        _ => false,
                    }
                }
        },
        ScreenTaskEvent::ResizeSurface { id, size } => if ids.contains(id) {
            r == seq![
                EngineRequest::WriteInstanceField { device, id, field: InstanceField::Size(size) },
            ]
        } else {
            r.len() == 0
        },
        ScreenTaskEvent::MoveSurface { id, position } => if ids.contains(id) {
            r == seq![
                EngineRequest::WriteInstanceField {
                    device,
                    id,
                    field: InstanceField::Position(position),
                },
            ]
        } else {
            r.len() == 0
        },
        ScreenTaskEvent::RemoveSurface { id } => {
            &&& !ids.contains(id) ==> r.len() == 0
            &&& forall|k: int|
                0 <= k < s.len() && (#[trigger] s[k]).id == id ==> r == seq![
                    EngineRequest::ReleaseInstance { device, id },
                    EngineRequest::RemoveTexture {
                        device,
                        texture: s[k].info.texture_id,
                        view: s[k].info.texture_view_id,
                    },
                ]
        },
    }
}

/// Everything kept for one device.
#[derive(Debug)]
pub struct DeviceResources {
    pub device: u64,
    pub displays: Vec<DisplayResources>,
    pub surface_manager: SurfaceManager,
    /// Most textures the device's texture array may hold.
    pub max_textures: usize,
    /// Texture-array length of the current bind-group layout; 0: no such entry.
    pub texture_binding_count: usize,
    /// Texture array of the current bind group.
    pub bind_group_views: Vec<u64>,
    /// Whether this tick produced instance uploads.
    pub data_copy_command_buffer_updated: bool,
}

impl DeviceResources {
    pub open spec fn surfaces(&self) -> Seq<SurfaceSlot> {
        self.surface_manager.slots()
    }

    pub open spec fn within_limit(&self) -> bool {
        self.surfaces().len() <= self.max_textures
    }

    /// The bound texture array, the layout and each display's pipeline agree
    /// with the live surfaces, and each surface draws with its own texture.
    pub open spec fn bindings_consistent(&self) -> bool {
        let s = self.surfaces();
        &&& indices_consistent(s)
        &&& self.bind_group_views@ == views_of(s)
        &&& self.texture_binding_count == s.len()
        &&& all_ready(self.displays@, s.len() > 0)
    }

    pub open spec fn wf(&self) -> bool {
        &&& self.surface_manager.wf()
        &&& self.surface_manager.device_id() == self.device
        &&& self.displays@.len() > 0
        &&& indices_consistent(self.surfaces())
        &&& self.within_limit() ==> self.bindings_consistent()
    }

    /// The bind-group layout for the live surfaces: the sampler, and a
    /// texture array only when there is a surface to put in it.
    pub fn prepare_bind_group_layout(&self) -> (r: EngineRequest)
        ensures
            r == (EngineRequest::BindGroupLayout {
                device: self.device,
                texture_count: self.surfaces().len() as usize,
            }),
    {
        EngineRequest::BindGroupLayout { device: self.device, texture_count: self.surface_manager.len() }
    }

    pub fn prepare_pipeline_layout(&self) -> (r: EngineRequest)
        ensures
            r == (EngineRequest::PipelineLayout {
                device: self.device,
                push_constant_bytes: PUSH_CONSTANT_BYTES,
            }),
    {
        EngineRequest::PipelineLayout { device: self.device, push_constant_bytes: PUSH_CONSTANT_BYTES }
    }

    /// The bind group for the live surfaces: the sampler, and their views in
    /// texture-array order.
    pub fn prepare_bind_group(&self) -> (r: EngineRequest)
        ensures
            is_bind_group(r, self.device, views_of(self.surfaces())),
    {
        EngineRequest::BindGroup { device: self.device, views: self.surface_manager.rectangle_views() }
    }

    /// The render pipeline of `display` for the live surfaces, and whether
    /// it is ready: it has a fragment stage only while a surface is live.
    pub fn prepare_render_pipeline(&self, display: &Display) -> (r: (EngineRequest, bool))
        ensures
            r.1 == (self.surfaces().len() > 0),
            r.0 == (EngineRequest::RenderPipeline {
                device: self.device,
                swapchain: display.swapchain,
                format: display.format,
                fragment: r.1,
            }),
    {
        let ready = self.surface_manager.len() > 0;
        let pipeline = EngineRequest::RenderPipeline {
            device: self.device,
            swapchain: display.swapchain,
            format: display.format,
            fragment: ready,
        };
        (pipeline, ready)
    }

    /// One render pass per display.
    pub fn prepare_command_buffer(&self) -> (r: Vec<RenderPassPlan>)
        requires
            self.surface_manager.wf(),
        ensures
            r@ == passes_of(self.displays@, self.surfaces().len()),
    {
        let n = self.surface_manager.len();
        let mut r: Vec<RenderPassPlan> = Vec::new();
        let mut k: usize = 0;
        while k < self.displays.len()
            invariant
                n == self.surfaces().len(),
                n <= crate::surface_manager::MAX_SURFACES,
                k <= self.displays@.len(),
                r@.len() == k,
                forall|j: int| 0 <= j < k ==> r@[j] == pass_of(self.displays@[j], n as nat),
            decreases self.displays@.len() - k,
        {
            let d = &self.displays[k].display;
            let draw = if n > 0 {
                Some(
                    DrawPlan {
                        projection: Projection::new(d.size, MAX_SURFACE_COUNT),
                        instance_count: n as u32,
                    },
                )
            } else {
                None
            };
            r.push(RenderPassPlan { swapchain: d.swapchain, draw });
            k = k + 1;
        }
        assert(r@ =~= passes_of(self.displays@, n as nat));
        r
    }

    /// Rebuilds the device's draw command buffer.
    pub fn update_command_buffer(&self, out: &mut Vec<EngineRequest>)
        requires
            self.surface_manager.wf(),
        ensures
            final(out)@.len() == old(out)@.len() + 1,
            final(out)@.drop_last() == old(out)@,
            is_command_buffer(
                final(out)@.last(),
                self.device,
                passes_of(self.displays@, self.surfaces().len()),
            ),
    {
        let passes = self.prepare_command_buffer();
        out.push(EngineRequest::CommandBuffer { device: self.device, passes });
        assert(out@.drop_last() =~= old(out)@);
    }

    /// Rebuilds the pipeline of each display whose readiness differs from
    /// "some surface is live"; the others are left alone.
    pub fn update_render_pipeline(&mut self, out: &mut Vec<EngineRequest>)
        ensures
            final(self).displays@ == with_ready(
                old(self).displays@,
                old(self).surfaces().len() > 0,
            ),
            final(self).device == old(self).device,
            final(self).surface_manager == old(self).surface_manager,
            final(self).max_textures == old(self).max_textures,
            final(self).texture_binding_count == old(self).texture_binding_count,
            final(self).bind_group_views == old(self).bind_group_views,
            final(self).data_copy_command_buffer_updated
                == old(self).data_copy_command_buffer_updated,
            final(out)@ == old(out)@ + pipeline_requests(
                old(self).device,
                old(self).displays@,
                old(self).surfaces().len() > 0,
            ),
    {
        let ready = self.surface_manager.len() > 0;
        let ghost old_ds = self.displays@;
        let ghost old_out = out@;
        let mut k: usize = 0;
        while k < self.displays.len()
            invariant
                self.displays@.len() == old_ds.len(),
                k <= old_ds.len(),
                ready == (self.surfaces().len() > 0),
                forall|j: int|
                    0 <= j < k ==> self.displays@[j] == (DisplayResources {
                        render_pipeline_ready: ready,
                        ..old_ds[j]
                    }),
                forall|j: int| k <= j < old_ds.len() ==> self.displays@[j] == old_ds[j],
                out@ == old_out + pipeline_requests(self.device, old_ds.subrange(0, k as int), ready),
                self.device == old(self).device,
                self.surface_manager == old(self).surface_manager,
                self.max_textures == old(self).max_textures,
                self.texture_binding_count == old(self).texture_binding_count,
                self.bind_group_views == old(self).bind_group_views,
                self.data_copy_command_buffer_updated
                    == old(self).data_copy_command_buffer_updated,
            decreases old_ds.len() - k,
        {
            let mut d = self.displays[k];
            proof {
                assert(old_ds.subrange(0, k + 1).drop_last() =~= old_ds.subrange(0, k as int));
                assert(old_ds.subrange(0, k + 1).last() == old_ds[k as int]);
            }
            let (pipeline, now_ready) = self.prepare_render_pipeline(&d.display);
            if d.render_pipeline_ready != now_ready {
                out.push(pipeline);
                d.render_pipeline_ready = now_ready;
                self.displays.set(k, d);
            }
            k = k + 1;
            assert(out@ =~= old_out + pipeline_requests(
                self.device,
                old_ds.subrange(0, k as int),
                ready,
            ));
        }
        assert(old_ds.subrange(0, k as int) =~= old_ds);
        assert(self.displays@ =~= with_ready(old_ds, ready));
    }

    /// Walks the cascade after the set of live surfaces changed. A texture
    /// array longer than the device allows stops it before anything is
    /// rebuilt.
    pub fn update_layout_and_bind_groups(&mut self, out: &mut Vec<EngineRequest>) -> (r: Result<
        (),
        SurfaceError,
    >)
        requires
            old(self).surface_manager.wf(),
            old(self).surface_manager.device_id() == old(self).device,
        ensures
            r.is_ok() == old(self).within_limit(),
            final(self).surfaces() == reconciled(old(self).surfaces()),
            indices_consistent(final(self).surfaces()),
            final(self).surface_manager.live_ids() == old(self).surface_manager.live_ids(),
            extends(old(out)@, final(out)@),
            !old(self).within_limit() ==> {
                &&& r == Err::<(), SurfaceError>(
                    SurfaceError::CapacityExceeded { device: old(self).device },
                )
                &&& final(self).displays == old(self).displays
                &&& final(self).texture_binding_count == old(self).texture_binding_count
                &&& final(self).bind_group_views == old(self).bind_group_views
                &&& final(out)@ == old(out)@ + index_writes(old(self).device, old(self).surfaces())
            },
            old(self).within_limit() ==> {
                &&& final(self).bindings_consistent()
                &&& final(self).displays@ == with_ready(
                    old(self).displays@,
                    old(self).surfaces().len() > 0,
                )
                &&& is_cascade(
                    old(self).device,
                    old(self).surfaces(),
                    old(self).displays@,
                    final(out)@.subrange(old(out)@.len() as int, final(out)@.len() as int),
                )
            },
            final(self).surface_manager.wf(),
            final(self).surface_manager.device_id() == old(self).device,
            final(self).surface_manager.ids_booked() == old(self).surface_manager.ids_booked(),
            final(self).device == old(self).device,
            final(self).max_textures == old(self).max_textures,
            final(self).data_copy_command_buffer_updated
                == old(self).data_copy_command_buffer_updated,
            final(self).displays@.len() == old(self).displays@.len(),
            forall|i: int|
                0 <= i < old(self).displays@.len() ==> (#[trigger] final(self).displays@[i]).display
                    == old(self).displays@[i].display,
    {
        let n = self.surface_manager.len();
        if n > self.max_textures {
            let ghost s0 = self.surfaces();
            self.surface_manager.update_image_indexes(out);
            proof {
                lemma_reconciled_keeps_ids(s0);
                assert(out@.subrange(0, old(out)@.len() as int) =~= old(out)@);
            }
            return Err(SurfaceError::CapacityExceeded { device: self.device });
        }
        let ghost old_out = out@;
        let ghost s = self.surfaces();
        let ghost ds = self.displays@;
        out.push(self.prepare_bind_group_layout());
        out.push(self.prepare_pipeline_layout());
        let ghost o1 = out@;
        self.surface_manager.update_image_indexes(out);
        let ghost o2 = out@;
        out.push(self.prepare_bind_group());
        let kept = self.surface_manager.rectangle_views();
        let ghost o3 = out@;
        self.bind_group_views = kept;
        self.texture_binding_count = n;
        self.update_render_pipeline(out);
        let ghost o4 = out@;
        self.update_command_buffer(out);
        proof {
            lemma_reconciled_keeps_ids(s);
            let w = index_writes(self.device, s);
            let p = pipeline_requests(self.device, ds, n > 0);
            let r = out@.subrange(old_out.len() as int, out@.len() as int);
            let a = w.len() as int;
            let b = p.len() as int;
            let m = old_out.len() as int;
            assert(o2 == o1 + w);
            assert(o4 == o3 + p);
            assert(o1.len() == m + 2);
            assert(o3.len() == o2.len() + 1);
            assert(out@.drop_last() == o4);
            assert forall|i: int| 0 <= i < a implies #[trigger] r.subrange(2, 2 + a)[i] == w[i] by {
                assert(r.subrange(2, 2 + a)[i] == out@[m + 2 + i]);
                assert(out@[m + 2 + i] == o4[m + 2 + i]);
                assert(o4[m + 2 + i] == o3[m + 2 + i]);
                assert(o3[m + 2 + i] == o2[m + 2 + i]);
                assert(o2[m + 2 + i] == w[i]);
            }
            assert forall|i: int| 0 <= i < b implies #[trigger] r.subrange(3 + a, 3 + a + b)[i]
                == p[i] by {
                assert(r.subrange(3 + a, 3 + a + b)[i] == out@[m + 3 + a + i]);
                assert(out@[m + 3 + a + i] == o4[m + 3 + a + i]);
                assert(o4[m + 3 + a + i] == p[i]);
            }
            assert(r.subrange(2, 2 + a) =~= w);
            assert(r.subrange(3 + a, 3 + a + b) =~= p);
            assert(r[0] == out@[m]);
            assert(r[1] == out@[m + 1]);
            assert(out@[m] == o4[m] && o4[m] == o3[m] && o3[m] == o2[m] && o2[m] == o1[m]);
            assert(out@[m + 1] == o4[m + 1] && o4[m + 1] == o3[m + 1] && o3[m + 1] == o2[m + 1]
                && o2[m + 1] == o1[m + 1]);
            assert(r[2 + a] == out@[m + 2 + a]);
            assert(out@[m + 2 + a] == o4[m + 2 + a]);
            assert(o4[m + 2 + a] == o3[m + 2 + a]);
            assert(o2.len() == m + 2 + a);
            assert(r[2 + a] == o3.last());
            assert(r.last() == out@.last());
            assert(r.len() == a + b + 4);
            assert(self.surfaces() == reconciled(s));
            assert(self.bind_group_views@ == views_of(self.surfaces()));
            assert(is_bind_group(r[2 + a], self.device, views_of(s)));
            assert(is_command_buffer(r.last(), self.device, passes_of(with_ready(ds, n > 0), n as nat)));
            assert(is_cascade(self.device, s, ds, r));
            assert(out@.subrange(0, old_out.len() as int) =~= old_out);
            assert forall|i: int| 0 <= i < ds.len() implies (#[trigger] self.displays@[i]).display
                == ds[i].display by {
                assert(self.displays@[i] == with_ready(ds, n > 0)[i]);
            }
            assert forall|i: int| 0 <= i < self.displays@.len() implies (
            #[trigger] self.displays@[i]).render_pipeline_ready == (n > 0) by {
                assert(self.displays@[i] == with_ready(ds, n > 0)[i]);
            }
        }
        Ok(())
    }

    /// Applies one queued surface event to this device's surfaces, and
    /// records its failure if it fails here.
    pub fn apply_event(
        &mut self,
        out: &mut Vec<EngineRequest>,
        errors: &mut Vec<SurfaceError>,
        event: &ScreenTaskEvent,
    )
        requires
            old(self).surface_manager.wf(),
            old(self).surface_manager.device_id() == old(self).device,
        ensures
            final(self).surface_manager.wf(),
            final(self).surface_manager.device_id() == old(self).device,
            final(self).device == old(self).device,
            final(self).displays == old(self).displays,
            final(self).max_textures == old(self).max_textures,
            final(self).texture_binding_count == old(self).texture_binding_count,
            final(self).bind_group_views == old(self).bind_group_views,
            final(self).data_copy_command_buffer_updated
                == old(self).data_copy_command_buffer_updated,
            final(self).surface_manager.live_ids() == step_ids(
                old(self).surface_manager.live_ids(),
                *event,
            ),
            final(self).surfaces() == step_slots(old(self).surfaces(), *event),
            final(errors)@ == old(errors)@ + match event_error(
                old(self).device,
                old(self).surface_manager.live_ids(),
                *event,
            ) {
                Some(e) => seq![e],
                None => Seq::<SurfaceError>::empty(),
            },
            !is_structural(*event) ==> keeps_bindings(old(self).surfaces(), final(self).surfaces()),
            extends(old(out)@, final(out)@),
            event_requests(
                old(self).device,
                old(self).surfaces(),
                *event,
                final(out)@.subrange(old(out)@.len() as int, final(out)@.len() as int),
            ),
            no_rebuilds(final(out)@.subrange(old(out)@.len() as int, final(out)@.len() as int)),
    {
        let ghost s = self.surfaces();
        let ghost ids = self.surface_manager.live_ids();
        let ghost old_out = out@;
        let ghost old_errors = errors@;
        let ghost dev = self.device;
        proof {
            assert forall|k: int| 0 <= k < s.len() implies #[trigger] ids[k] == s[k].id by {}
        }
        let ghost absent = !ids.contains(crate::events::event_id(*event));
        proof {
            if absent {
                assert forall|j: int| 0 <= j < s.len() implies (#[trigger] s[j]).id != crate::events::event_id(
                    *event,
                ) by {
                    assert(ids[j] == s[j].id);
                }
            }
        }
        match event {
            ScreenTaskEvent::CreateSurface { id, label, source, position, size } => {
                let src = source.duplicate();
                let lbl = label.clone();
                let r = self.surface_manager.create_surface(out, lbl, *id, src, *position, *size);
                match r {
                    Ok(()) => {
                        proof {
                            assert(ids_of(self.surfaces()) =~= ids.push(*id));
                            let m = old_out.len() as int;
                            let added = out@.subrange(m, out@.len() as int);
                            let slot = new_slot(*id, source_info(src), *position, *size, s.len() as int);
                            assert(added =~= create_requests(dev, lbl, src, slot));
                            lemma_upload_of(dev, *id as u64, src);
                            assert(added.subrange(1, added.len() - 1) =~= upload_requests(
                                dev,
                                *id as u64,
                                src,
                            ));
                            lemma_upload_no_rebuilds(dev, *id as u64, src);
                            assert forall|i: int| 0 <= i < added.len() implies !crate::requests::is_rebuild(
                                #[trigger] added[i],
                            ) by {
                                let up = upload_requests(dev, *id as u64, src);
                                if i >= 1 && i < 1 + up.len() {
                                    assert(added[i] == up[i - 1]);
                                }
                            }
                        }
                    },
                    Err(e) => {
                        errors.push(e);
                    },
                }
                proof {
                    assert(event_requests(dev, s, *event, out@.subrange(old_out.len() as int, out@.len() as int)));
                }
            },
            ScreenTaskEvent::UpdateSource { id, source } => {
                let src = source.duplicate();
                let r = self.surface_manager.update_source(out, *id, src);
                match r {
                    Ok(()) => {
                        proof {
                            let k = choose|k: int| 0 <= k < s.len() && ids[k] == *id;
                            assert(s[k].id == *id);
                            lemma_map_id(
                                s,
                                *id,
                                |x: SurfaceSlot|
                                    crate::surface_manager::with_source(
                                        x,
                                        crate::surface::source_info(*source),
                                    ),
                                k,
                            );
                            lemma_update_keeps_bindings(
                                s,
                                k,
                                crate::surface_manager::with_source(
                                    s[k],
                                    crate::surface::source_info(src),
                                ),
                            );
                            let up = upload_requests(dev, s[k].info.texture_id, src);
                            lemma_upload_no_rebuilds(dev, s[k].info.texture_id, src);
                            let m = old_out.len() as int;
                            let added = out@.subrange(m, out@.len() as int);
                            assert(added == source_requests(dev, s[k], src));
                            assert forall|i: int| 0 <= i < added.len() implies !crate::requests::is_rebuild(
                                #[trigger] added[i],
                            ) by {
                                if i >= added.len() - up.len() {
                                    assert(added[i] == up[i - (added.len() - up.len())]);
                                }
                            }
                        }
                    },
                    Err(e) => {
                        errors.push(e);
                        proof {
                            lemma_map_id_absent(
                                s,
                                *id,
                                |x: SurfaceSlot|
                                    crate::surface_manager::with_source(
                                        x,
                                        crate::surface::source_info(*source),
                                    ),
                            );
                        }
                    },
                }
                proof {
                    assert(event_requests(dev, s, *event, out@.subrange(old_out.len() as int, out@.len() as int)));
                }
            },
            ScreenTaskEvent::UpdateData { id, data } => {
                let r = self.surface_manager.update_data(out, *id, data.clone());
                if let Err(e) = r {
                    errors.push(e);
                }
                proof {
                    assert(event_requests(dev, s, *event, out@.subrange(old_out.len() as int, out@.len() as int)));
                }
            },
            ScreenTaskEvent::ResizeSurface { id, size } => {
                if !self.surface_manager.resize_surface(out, *id, *size) {
                    errors.push(SurfaceError::NotFound { id: *id });
                    proof {
                        lemma_map_id_absent(
                            s,
                            *id,
                            |x: SurfaceSlot| crate::surface_manager::with_size(x, *size),
                        );
                    }
                } else {
                    proof {
                        let k = choose|k: int| 0 <= k < s.len() && ids[k] == *id;
                        assert(s[k].id == *id);
                        lemma_map_id(
                            s,
                            *id,
                            |x: SurfaceSlot| crate::surface_manager::with_size(x, *size),
                            k,
                        );
                        lemma_update_keeps_bindings(
                            s,
                            k,
                            crate::surface_manager::with_size(s[k], *size),
                        );
                    }
                }
                proof {
                    let r = out@.subrange(old_out.len() as int, out@.len() as int);
                    if ids.contains(*id) {
                        assert(r =~= seq![
                            EngineRequest::WriteInstanceField { device: dev, id: *id, field: InstanceField::Size(*size) },
                        ]);
                    } else {
                        assert(r =~= Seq::<EngineRequest>::empty());
                    }
                    assert(event_requests(dev, s, *event, r));
                }
            },
            ScreenTaskEvent::MoveSurface { id, position } => {
                if !self.surface_manager.move_surface(out, *id, *position) {
                    errors.push(SurfaceError::NotFound { id: *id });
                    proof {
                        lemma_map_id_absent(
                            s,
                            *id,
                            |x: SurfaceSlot| crate::surface_manager::with_position(x, *position),
                        );
                    }
                } else {
                    proof {
                        let k = choose|k: int| 0 <= k < s.len() && ids[k] == *id;
                        assert(s[k].id == *id);
                        lemma_map_id(
                            s,
                            *id,
                            |x: SurfaceSlot| crate::surface_manager::with_position(x, *position),
                            k,
                        );
                        lemma_update_keeps_bindings(
                            s,
                            k,
                            crate::surface_manager::with_position(s[k], *position),
                        );
                    }
                }
                proof {
                    let r = out@.subrange(old_out.len() as int, out@.len() as int);
                    if ids.contains(*id) {
                        assert(r =~= seq![
                            EngineRequest::WriteInstanceField {
                                device: dev,
                                id: *id,
                                field: InstanceField::Position(*position),
                            },
                        ]);
                    } else {
                        assert(r =~= Seq::<EngineRequest>::empty());
                    }
                    assert(event_requests(dev, s, *event, r));
                }
            },
            ScreenTaskEvent::RemoveSurface { id } => {
                if !self.surface_manager.remove_surface(out, *id) {
                    errors.push(SurfaceError::NotFound { id: *id });
                    proof {
                        lemma_without_absent(ids, *id);
                        lemma_drop_id_absent(s, *id);
                    }
                } else {
                    proof {
                        let k = choose|k: int| 0 <= k < s.len() && ids[k] == *id;
                        assert(s[k].id == *id);
                        assert(crate::events::distinct(ids)) by {
                            assert forall|i: int, j: int|
                                0 <= i < ids.len() && 0 <= j < ids.len() && i != j implies ids[i]
                                != ids[j] by {
                                assert(s[i].id != s[j].id);
                            }
                        }
                        lemma_without_is_remove(ids, *id, k);
                        lemma_drop_id_is_remove(s, *id, k);
                        assert forall|j: int| 0 <= j < s.len() && (#[trigger] s[j]).id == *id implies j
                            == k by {
                            if j != k {
                                assert(s[j].id != s[k].id);
                            }
                        }
                        assert(out@.subrange(old_out.len() as int, out@.len() as int) =~= seq![
                            EngineRequest::ReleaseInstance { device: dev, id: *id },
                            EngineRequest::RemoveTexture {
                                device: dev,
                                texture: s[k].info.texture_id,
                                view: s[k].info.texture_view_id,
                            },
                        ]);
                    }
                }
                proof {
                    if !ids.contains(*id) {
                        assert(out@.subrange(old_out.len() as int, out@.len() as int) =~= Seq::<
                            EngineRequest,
                        >::empty());
                    }
                    assert(event_requests(dev, s, *event, out@.subrange(old_out.len() as int, out@.len() as int)));
                }
            },
        }
        proof {
            let m = old_out.len() as int;
            assert(out@.subrange(0, m) =~= old_out);
            assert(errors@ =~= old_errors + match event_error(dev, ids, *event) {
                Some(e) => seq![e],
                None => Seq::<SurfaceError>::empty(),
            });
        }
    }

    /// Builds a device's shared state around its first display: no surface
    /// yet, so no texture array and a pipeline without fragment stage.
    pub fn init_device_resources(
        out: &mut Vec<EngineRequest>,
        device: u64,
        swapchain: u64,
        size: [u32; 2],
        format: TextureFormat,
        max_textures: usize,
    ) -> (r: Self)
        ensures
            r.wf(),
            r.bindings_consistent(),
            r.device == device,
            r.max_textures == max_textures,
            r.surfaces() == Seq::<SurfaceSlot>::empty(),
            r.surface_manager.ids_booked() == 0,
            !r.data_copy_command_buffer_updated,
            r.displays@ == seq![
                (DisplayResources {
                    display: (Display { device, swapchain, position: [0, 0], size, format }),
                    render_pipeline_ready: false,
                }),
            ],
            final(out)@.subrange(0, old(out)@.len() as int) == old(out)@,
            final(out)@.len() == old(out)@.len() + 7,
            final(out)@[old(out)@.len() as int] == (EngineRequest::InitDevice { device }),
            final(out)@[old(out)@.len() + 1int] == (EngineRequest::BindGroupLayout {
                device,
                texture_count: 0,
            }),
            final(out)@[old(out)@.len() + 2int] == (EngineRequest::PipelineLayout {
                device,
                push_constant_bytes: PUSH_CONSTANT_BYTES,
            }),
            is_bind_group(final(out)@[old(out)@.len() + 3int], device, Seq::<u64>::empty()),
            final(out)@[old(out)@.len() + 4int] == (EngineRequest::DepthTarget {
                device,
                swapchain,
                width: size[0],
                height: size[1],
            }),
            final(out)@[old(out)@.len() + 5int] == (EngineRequest::RenderPipeline {
                device,
                swapchain,
                format,
                fragment: false,
            }),
            is_command_buffer(final(out)@.last(), device, passes_of(r.displays@, 0)),
    {
        let ghost old_out = out@;
        out.push(EngineRequest::InitDevice { device });
        let surface_manager = SurfaceManager::new(device);
        out.push(EngineRequest::BindGroupLayout { device, texture_count: 0 });
        out.push(EngineRequest::PipelineLayout { device, push_constant_bytes: PUSH_CONSTANT_BYTES });
        out.push(EngineRequest::BindGroup { device, views: Vec::new() });
        let display = Display::new(out, device, swapchain, [0, 0], size, format);
        let display_resources = DisplayResources::new(out, display, &surface_manager);
        let mut displays: Vec<DisplayResources> = Vec::new();
        displays.push(display_resources);
        let r = DeviceResources {
            device,
            displays,
            surface_manager,
            max_textures,
            texture_binding_count: 0,
            bind_group_views: Vec::new(),
            data_copy_command_buffer_updated: false,
        };
        let ghost o = out@;
        r.update_command_buffer(out);
        proof {
            assert(views_of(r.surfaces()) =~= Seq::<u64>::empty());
            assert(r.bind_group_views@ =~= Seq::<u64>::empty());
            assert(r.displays@ =~= seq![display_resources]);
            assert(out@.drop_last() == o);
            assert forall|j: int| 0 <= j < o.len() implies #[trigger] out@[j] == o[j] by {
                assert(out@.drop_last()[j] == out@[j]);
            }
            assert(out@.subrange(0, old_out.len() as int) =~= old_out);
        }
        r
    }

    /// Attaches another display to this device, sharing its surfaces and
    /// bindings.
    pub fn add_display(
        &mut self,
        out: &mut Vec<EngineRequest>,
        swapchain: u64,
        size: [u32; 2],
        format: TextureFormat,
    )
        requires
            old(self).wf(),
        ensures
            final(self).wf(),
            final(self).device == old(self).device,
            final(self).surface_manager == old(self).surface_manager,
            final(self).max_textures == old(self).max_textures,
            final(self).data_copy_command_buffer_updated
                == old(self).data_copy_command_buffer_updated,
            final(self).displays@ == old(self).displays@.push(
                (DisplayResources {
                    display: (Display {
                        device: old(self).device,
                        swapchain,
                        position: [0, 0],
                        size,
                        format,
                    }),
                    render_pipeline_ready: old(self).surfaces().len() > 0,
                }),
            ),
            final(out)@.subrange(0, old(out)@.len() as int) == old(out)@,
            final(out)@.len() == old(out)@.len() + 3,
            final(out)@[old(out)@.len() as int] == (EngineRequest::DepthTarget {
                device: old(self).device,
                swapchain,
                width: size[0],
                height: size[1],
            }),
            final(out)@[old(out)@.len() + 1int] == (EngineRequest::RenderPipeline {
                device: old(self).device,
                swapchain,
                format,
                fragment: old(self).surfaces().len() > 0,
            }),
            is_command_buffer(
                final(out)@.last(),
                old(self).device,
                passes_of(final(self).displays@, old(self).surfaces().len()),
            ),
    {
        let ghost old_out = out@;
        let display = Display::new(out, self.device, swapchain, [0, 0], size, format);
        let display_resources = DisplayResources::new(out, display, &self.surface_manager);
        self.displays.push(display_resources);
        let ghost o = out@;
        self.update_command_buffer(out);
        proof {
            assert(out@.drop_last() == o);
            assert forall|j: int| 0 <= j < o.len() implies #[trigger] out@[j] == o[j] by {
                assert(out@.drop_last()[j] == out@[j]);
            }
            assert(out@.subrange(0, old_out.len() as int) =~= old_out);
        }
    }

    /// Detaches the display at `k`; the device keeps at least one. The other
    /// displays' draws are rebuilt, the shared bindings are not.
    pub fn remove_display(&mut self, out: &mut Vec<EngineRequest>, k: usize)
        requires
            old(self).wf(),
            k < old(self).displays@.len(),
            old(self).displays@.len() > 1,
        ensures
            final(self).wf(),
            final(self).device == old(self).device,
            final(self).surface_manager == old(self).surface_manager,
            final(self).max_textures == old(self).max_textures,
            final(self).data_copy_command_buffer_updated
                == old(self).data_copy_command_buffer_updated,
            final(self).displays@ == old(self).displays@.remove(k as int),
            final(out)@.subrange(0, old(out)@.len() as int) == old(out)@,
            final(out)@.len() == old(out)@.len() + 2,
            final(out)@[old(out)@.len() as int] == (EngineRequest::RemoveDisplay {
                device: old(self).device,
                swapchain: old(self).displays@[k as int].display.swapchain,
            }),
            is_command_buffer(
                final(out)@.last(),
                old(self).device,
                passes_of(final(self).displays@, old(self).surfaces().len()),
            ),
    {
        let ghost old_out = out@;
        let ghost ds = self.displays@;
        let removed = self.displays.remove(k);
        out.push(
            EngineRequest::RemoveDisplay { device: self.device, swapchain: removed.display.swapchain },
        );
        let ghost o = out@;
        self.update_command_buffer(out);
        proof {
            assert(out@.drop_last() == o);
            assert forall|j: int| 0 <= j < o.len() implies #[trigger] out@[j] == o[j] by {
                assert(out@.drop_last()[j] == out@[j]);
            }
            assert(out@.subrange(0, old_out.len() as int) =~= old_out);
            assert forall|i: int| 0 <= i < self.displays@.len() implies (
            #[trigger] self.displays@[i]).render_pipeline_ready == ds[if i < k { i } else { i + 1 }].render_pipeline_ready by {
            }
        }
    }

    /// Takes the new size and format of the display at `k`: its depth
    /// target and draw are rebuilt, and its pipeline only if the format
    /// changed.
    pub fn update_display(
        &mut self,
        out: &mut Vec<EngineRequest>,
        k: usize,
        size: [u32; 2],
        format: TextureFormat,
    )
        requires
            old(self).wf(),
            k < old(self).displays@.len(),
        ensures
            final(self).wf(),
            final(self).device == old(self).device,
            final(self).surface_manager == old(self).surface_manager,
            final(self).max_textures == old(self).max_textures,
            final(self).data_copy_command_buffer_updated
                == old(self).data_copy_command_buffer_updated,
            final(self).displays@ == old(self).displays@.update(
                k as int,
                (DisplayResources {
                    display: (Display { size, format, ..old(self).displays@[k as int].display }),
                    ..old(self).displays@[k as int]
                }),
            ),
            final(out)@.subrange(0, old(out)@.len() as int) == old(out)@,
            final(out)@[old(out)@.len() as int] == (EngineRequest::DepthTarget {
                device: old(self).displays@[k as int].display.device,
                swapchain: old(self).displays@[k as int].display.swapchain,
                width: size[0],
                height: size[1],
            }),
            final(out)@.len() == old(out)@.len() + (if old(self).displays@[k as int].display.format
                == format {
                2int
            } else {
                3int
            }),
            old(self).displays@[k as int].display.format != format ==> final(out)@[old(out)@.len()
                + 1int] == (EngineRequest::RenderPipeline {
                device: old(self).device,
                swapchain: old(self).displays@[k as int].display.swapchain,
                format,
                fragment: old(self).displays@[k as int].render_pipeline_ready,
            }),
            is_command_buffer(
                final(out)@.last(),
                old(self).device,
                passes_of(final(self).displays@, old(self).surfaces().len()),
            ),
    {
        let ghost old_out = out@;
        let ghost ds = self.displays@;
        let mut d = self.displays[k];
        let format_changed = d.display.update(out, size, format);
        let ghost o1 = out@;
        if format_changed {
            out.push(
                EngineRequest::RenderPipeline {
                    device: self.device,
                    swapchain: d.display.swapchain,
                    format: d.display.format,
                    fragment: d.render_pipeline_ready,
                },
            );
        }
        self.displays.set(k, d);
        let ghost o = out@;
        self.update_command_buffer(out);
        proof {
            assert(out@.drop_last() == o);
            assert forall|j: int| 0 <= j < o.len() implies #[trigger] out@[j] == o[j] by {
                assert(out@.drop_last()[j] == out@[j]);
            }
            assert(out@.subrange(0, old_out.len() as int) =~= old_out);
            assert(out@[old_out.len() as int] == o[old_out.len() as int]);
            assert(o[old_out.len() as int] == o1[old_out.len() as int]);
            if format_changed {
                assert(out@[old_out.len() + 1int] == o[old_out.len() + 1int]);
            }
            assert forall|i: int| 0 <= i < self.displays@.len() implies (
            #[trigger] self.displays@[i]).render_pipeline_ready == ds[i].render_pipeline_ready by {
            }
        }
    }
}

} // verus!
