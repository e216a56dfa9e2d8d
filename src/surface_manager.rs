use vstd::prelude::*;
use crate::error::SurfaceError;
use crate::requests::{EngineRequest, InstanceField};
use crate::surface::{
    source_info, source_pixels, texture_plan, Surface, SurfaceInfo, SurfaceSource,
    SurfaceSourceInfo, TextureFormat, TextureOrigin, TexturePlan, TextureUpload,
};

verus! {

/// Most surfaces one device can hold: an image index must fit in `u32`.
pub const MAX_SURFACES: usize = 0xffff_ffff;

/// A live surface as the pool keeps it.
#[derive(Clone, Copy, Debug)]
pub struct SurfaceSlot {
    pub id: usize,
    pub info: SurfaceInfo,
    /// The instance record, as last sent to the instance buffer.
    pub data: Surface,
}

/// The ids of `s`, in order.
pub open spec fn ids_of(s: Seq<SurfaceSlot>) -> Seq<usize> {
    s.map_values(|x: SurfaceSlot| x.id)
}

/// The texture views of `s`, in order: the bound texture array.
pub open spec fn views_of(s: Seq<SurfaceSlot>) -> Seq<u64> {
    s.map_values(|x: SurfaceSlot| x.info.texture_view_id)
}

pub open spec fn unique_ids(s: Seq<SurfaceSlot>) -> bool {
    forall|i: int, j: int|
        0 <= i < s.len() && 0 <= j < s.len() && i != j ==> #[trigger] s[i].id != #[trigger] s[j].id
}

/// `x` drawing with texture `k`.
pub open spec fn with_image_index(x: SurfaceSlot, k: int) -> SurfaceSlot {
    SurfaceSlot { data: Surface { image_index: k as u32, ..x.data }, ..x }
}

/// `s` with every surface's image index set to its position.
pub open spec fn reconciled(s: Seq<SurfaceSlot>) -> Seq<SurfaceSlot> {
    s.map(|k: int, x: SurfaceSlot| with_image_index(x, k))
}

/// Every surface of `s` draws with the texture at its own position.
pub open spec fn indices_consistent(s: Seq<SurfaceSlot>) -> bool {
    forall|k: int| 0 <= k < s.len() ==> (#[trigger] s[k]).data.image_index == k
}

/// The texture and view keys of surface `id`.
pub open spec fn texture_key(id: usize) -> u64 {
    id as u64
}

/// The slot a surface is created into, at position `k`.
pub open spec fn new_slot(
    id: usize,
    info: SurfaceSourceInfo,
    position: [i32; 3],
    size: [u32; 2],
    k: int,
) -> SurfaceSlot {
    SurfaceSlot {
        id,
        info: SurfaceInfo {
            texture_id: texture_key(id),
            texture_view_id: texture_key(id),
            info,
            position,
            size,
        },
        data: Surface { position, size, image_index: k as u32 },
    }
}

/// The upload of a source's pixels into texture `texture`, if it has any.
pub open spec fn upload_requests(device: u64, texture: u64, source: SurfaceSource) -> Seq<
    EngineRequest,
> {
    let plan = texture_plan(source_info(source));
    match source_pixels(source) {
        Some(data) => seq![
            EngineRequest::WriteTexture {
                device,
                upload: TextureUpload {
                    texture,
                    data,
                    width: plan.width,
                    height: plan.height,
                    bytes_per_row: plan.bytes_per_row,
                    rows_per_image: plan.rows_per_image,
                },
            },
        ],
        None => seq![],
    }
}

/// Requests that bring a new surface `slot`, labelled `label`, to the engine.
pub open spec fn create_requests(
    device: u64,
    label: String,
    source: SurfaceSource,
    slot: SurfaceSlot,
) -> Seq<EngineRequest> {
    seq![
        EngineRequest::CreateTexture {
            device,
            label,
            texture: slot.info.texture_id,
            view: slot.info.texture_view_id,
            plan: texture_plan(source_info(source)),
        },
    ] + upload_requests(device, slot.info.texture_id, source) + seq![
        EngineRequest::RequestInstance { device, id: slot.id, data: slot.data },
    ]
}

/// Whether the texture made for `old` can take the pixels of `new` as it is.
pub open spec fn reusable(old: SurfaceSourceInfo, new: SurfaceSourceInfo) -> bool {
    match (old, new) {
        (SurfaceSourceInfo::HostAllocation(a), SurfaceSourceInfo::HostAllocation(b)) => a.size
            == b.size && a.format == b.format,
        _ => false,
    }
}

/// Requests that move surface `x` onto `source`.
pub open spec fn source_requests(device: u64, x: SurfaceSlot, source: SurfaceSource) -> Seq<
    EngineRequest,
> {
    if reusable(x.info.info, source_info(source)) {
        upload_requests(device, x.info.texture_id, source)
    } else {
        seq![
            EngineRequest::ReplaceTexture {
                device,
                texture: x.info.texture_id,
                view: x.info.texture_view_id,
                plan: texture_plan(source_info(source)),
            },
        ] + upload_requests(device, x.info.texture_id, source)
    }
}

pub open spec fn with_source(x: SurfaceSlot, info: SurfaceSourceInfo) -> SurfaceSlot {
    SurfaceSlot { info: SurfaceInfo { info, ..x.info }, ..x }
}

pub open spec fn with_size(x: SurfaceSlot, size: [u32; 2]) -> SurfaceSlot {
    SurfaceSlot { info: SurfaceInfo { size, ..x.info }, data: Surface { size, ..x.data }, ..x }
}

pub open spec fn with_position(x: SurfaceSlot, position: [i32; 3]) -> SurfaceSlot {
    SurfaceSlot {
        info: SurfaceInfo { position, ..x.info },
        data: Surface { position, ..x.data },
        ..x
    }
}

/// The upload of raw `data` over the whole texture of `x`, four bytes a texel.
pub open spec fn data_upload(x: SurfaceSlot, data: Vec<u8>) -> TextureUpload {
    let plan = texture_plan(x.info.info);
    TextureUpload {
        texture: x.info.texture_id,
        data,
        width: plan.width,
        height: plan.height,
        bytes_per_row: (4 * plan.width) as u64,
        rows_per_image: plan.height,
    }
}

/// One image-index write for each surface of `s`: its position.
pub open spec fn index_writes(device: u64, s: Seq<SurfaceSlot>) -> Seq<EngineRequest> {
    Seq::new(
        s.len(),
        |k: int|
            EngineRequest::WriteInstanceField {
                device,
                id: s[k].id,
                field: InstanceField::ImageIndex(k as u32),
            },
    )
}

pub proof fn lemma_unique_after_update(s: Seq<SurfaceSlot>, k: int, x: SurfaceSlot)
    requires
        unique_ids(s),
        0 <= k < s.len(),
        x.id == s[k].id,
    ensures
        unique_ids(s.update(k, x)),
        ids_of(s.update(k, x)) == ids_of(s),
{
    let t = s.update(k, x);
    assert forall|i: int, j: int|
        0 <= i < t.len() && 0 <= j < t.len() && i != j implies #[trigger] t[i].id
        != #[trigger] t[j].id by {
        assert(t[i].id == s[i].id && t[j].id == s[j].id);
    }
    assert(ids_of(t) =~= ids_of(s));
}

pub proof fn lemma_unique_after_remove(s: Seq<SurfaceSlot>, k: int)
    requires
        unique_ids(s),
        0 <= k < s.len(),
    ensures
        unique_ids(s.remove(k)),
        ids_of(s.remove(k)) == ids_of(s).remove(k),
{
    let t = s.remove(k);
    assert forall|i: int, j: int|
        0 <= i < t.len() && 0 <= j < t.len() && i != j implies #[trigger] t[i].id
        != #[trigger] t[j].id by {
        let a = if i < k { i } else { i + 1 };
        let b = if j < k { j } else { j + 1 };
        assert(t[i] == s[a] && t[j] == s[b]);
    }
    assert(ids_of(t) =~= ids_of(s).remove(k));
}

pub proof fn lemma_reconciled_keeps_ids(s: Seq<SurfaceSlot>)
    requires
        unique_ids(s),
    ensures
        unique_ids(reconciled(s)),
        ids_of(reconciled(s)) == ids_of(s),
        views_of(reconciled(s)) == views_of(s),
        s.len() <= MAX_SURFACES ==> indices_consistent(reconciled(s)),
{
    let t = reconciled(s);
    assert forall|i: int, j: int|
        0 <= i < t.len() && 0 <= j < t.len() && i != j implies #[trigger] t[i].id
        != #[trigger] t[j].id by {
        assert(t[i].id == s[i].id && t[j].id == s[j].id);
    }
    assert(ids_of(t) =~= ids_of(s));
    assert(views_of(t) =~= views_of(s));
}

/// Once every image index equals its position, each surface's index picks
/// its own texture view out of the texture array.
pub proof fn lemma_index_consistency(s: Seq<SurfaceSlot>)
    requires
        indices_consistent(s),
    ensures
        forall|k: int|
            0 <= k < s.len() ==> views_of(s)[(#[trigger] s[k]).data.image_index as int]
                == s[k].info.texture_view_id,
{
    assert forall|k: int| 0 <= k < s.len() implies views_of(s)[(#[trigger] s[k]).data.image_index as int]
        == s[k].info.texture_view_id by {
        assert(s[k].data.image_index == k);
    }
}

/// Reconciling twice in a row leaves the same instance records as
/// reconciling once.
pub proof fn lemma_reconcile_idempotent(s: Seq<SurfaceSlot>)
    requires
        s.len() <= MAX_SURFACES,
    ensures
        reconciled(reconciled(s)) == reconciled(s),
{
    let t = reconciled(s);
    assert forall|k: int| 0 <= k < t.len() implies #[trigger] reconciled(t)[k] == t[k] by {
        assert((k as u32) as int == k);
    }
    assert(reconciled(t) =~= t);
}

/// Removing the middle one of three surfaces and then adding a fourth keeps
/// the two that remain in their order and puts the new one last, drawing
/// with texture 2.
pub proof fn lemma_remove_then_add_keeps_order(
    s: Seq<SurfaceSlot>,
    d: usize,
    info: SurfaceSourceInfo,
    position: [i32; 3],
    size: [u32; 2],
)
    requires
        s.len() == 3,
        unique_ids(s),
        !ids_of(s).contains(d),
    ensures
        ({
            let t = s.remove(1);
            let u = t.push(new_slot(d, info, position, size, t.len() as int));
            &&& ids_of(u) == seq![s[0].id, s[2].id, d]
            &&& u[2].data.image_index == 2
            &&& reconciled(u)[2].data.image_index == 2
            &&& reconciled(u)[2].id == d
        }),
{
    let t = s.remove(1);
    let u = t.push(new_slot(d, info, position, size, t.len() as int));
    assert(ids_of(u) =~= seq![s[0].id, s[2].id, d]);
}

/// The live surfaces of one device: their order, which fixes the texture
/// array and each surface's image index, and what is known of each.
#[derive(Debug)]
pub struct SurfaceManager {
    device: u64,
    id_counter: usize,
    slots: Vec<SurfaceSlot>,
}

impl SurfaceManager {
    pub closed spec fn device_id(&self) -> u64 {
        self.device
    }

    /// The live surfaces, in texture-array order.
    pub closed spec fn slots(&self) -> Seq<SurfaceSlot> {
        self.slots@
    }

    pub closed spec fn ids_booked(&self) -> nat {
        self.id_counter as nat
    }

    pub open spec fn live_ids(&self) -> Seq<usize> {
        ids_of(self.slots())
    }

    pub open spec fn wf(&self) -> bool {
        unique_ids(self.slots()) && self.slots().len() <= MAX_SURFACES
    }

    pub fn new(device: u64) -> (r: Self)
        ensures
            r.wf(),
            r.device_id() == device,
            r.slots() == Seq::<SurfaceSlot>::empty(),
            r.ids_booked() == 0,
    {
        SurfaceManager { device, id_counter: 0, slots: Vec::new() }
    }

    /// Builds the texture plan of `source` and hands back its pixels, if any.
    pub fn prepare_texture(source: SurfaceSource) -> (r: (TexturePlan, Option<Vec<u8>>))
        ensures
            r.0 == texture_plan(source_info(source)),
            r.1 == source_pixels(source),
    {
        match source {
            SurfaceSource::HostAllocation { info, data } => {
                let plan = TexturePlan {
                    width: info.size[0],
                    height: info.size[1],
                    format: info.format,
                    bytes_per_row: info.stride as u64,
                    rows_per_image: info.size[1],
                    origin: TextureOrigin::Local,
                };
                (plan, Some(data))
            },
            SurfaceSource::Dmabuf { info } => {
                let stride = info.plane_stride as u128;
                let w = info.size[0] as u128;
                let h = info.size[1] as u128;
                assert(stride * w <= 0xffff_ffff * 0xffff_ffff) by (nonlinear_arith)
                    requires stride <= 0xffff_ffff, w <= 0xffff_ffff;
                assert(stride * w * h <= 0xffff_ffff * 0xffff_ffff * 0xffff_ffff) by (nonlinear_arith)
                    requires stride * w <= 0xffff_ffff * 0xffff_ffff, h <= 0xffff_ffff;
                let plan = TexturePlan {
                    width: info.size[0],
                    height: info.size[1],
                    format: TextureFormat::Rgba8UnormSrgb,
                    bytes_per_row: info.plane_stride as u64,
                    rows_per_image: info.size[1],
                    origin: TextureOrigin::Dmabuf {
                        fd: info.fd,
                        modifier: info.modifier,
                        plane_offset: info.plane_offset,
                        plane_end: stride * w * h,
                        row_pitch: info.plane_stride as u64,
                    },
                };
                (plan, None)
            },
        }
    }

    /// Builds the upload of `data` into `texture`, laid out as `plan` says.
    pub fn prepare_texture_write(texture: u64, data: Vec<u8>, plan: &TexturePlan) -> (r: TextureUpload)
        ensures
            r == (TextureUpload {
                texture,
                data,
                width: plan.width,
                height: plan.height,
                bytes_per_row: plan.bytes_per_row,
                rows_per_image: plan.rows_per_image,
            }),
    {
        TextureUpload {
            texture,
            data,
            width: plan.width,
            height: plan.height,
            bytes_per_row: plan.bytes_per_row,
            rows_per_image: plan.rows_per_image,
        }
    }

    pub fn device(&self) -> (r: u64)
        ensures
            r == self.device_id(),
    {
        self.device
    }

    /// Hands out a fresh id: the number of ids handed out so far.
    pub fn book_id(&mut self) -> (r: usize)
        requires
            old(self).ids_booked() < usize::MAX,
        ensures
            r == old(self).ids_booked(),
            final(self).ids_booked() == old(self).ids_booked() + 1,
            final(self).slots() == old(self).slots(),
            final(self).device_id() == old(self).device_id(),
    {
        let id = self.id_counter;
        self.id_counter = self.id_counter + 1;
        id
    }

    /// The live surfaces, in texture-array order.
    pub fn surfaces(&self) -> (r: &Vec<SurfaceSlot>)
        ensures
            r@ == self.slots(),
    {
        &self.slots
    }

    pub fn len(&self) -> (r: usize)
        ensures
            r == self.slots().len(),
    {
        self.slots.len()
    }

    /// Position of surface `id` in the texture array.
    fn find(&self, id: usize) -> (r: Option<usize>)
        ensures
            match r {
                Some(k) => k < self.slots().len() && self.slots()[k as int].id == id,
                None => !self.live_ids().contains(id) && forall|j: int|
                    0 <= j < self.slots().len() ==> (#[trigger] self.slots()[j]).id != id,
            },
    {
        let mut k: usize = 0;
        while k < self.slots.len()
            invariant
                k <= self.slots@.len(),
                forall|j: int| 0 <= j < k ==> (#[trigger] self.slots@[j]).id != id,
            decreases self.slots@.len() - k,
        {
            if self.slots[k].id == id {
                return Some(k);
            }
            k = k + 1;
        }
        proof {
            assert forall|j: int| 0 <= j < self.slots@.len() implies #[trigger] ids_of(
                self.slots@,
            )[j] != id by {
                assert(self.slots@[j].id != id);
            }
        }
        None
    }

    /// Adds surface `id` at the end of the texture array, with the texture
    /// `source` calls for and a provisional image index (its position).
    pub fn create_surface(
        &mut self,
        out: &mut Vec<EngineRequest>,
        label: String,
        id: usize,
        source: SurfaceSource,
        position: [i32; 3],
        size: [u32; 2],
    ) -> (r: Result<(), SurfaceError>)
        requires
            old(self).wf(),
        ensures
            final(self).wf(),
            final(self).device_id() == old(self).device_id(),
            final(self).ids_booked() == old(self).ids_booked(),
            old(self).live_ids().contains(id) ==> r == Err::<(), SurfaceError>(
                SurfaceError::DuplicateId { id },
            ),
            !old(self).live_ids().contains(id) && old(self).slots().len() >= MAX_SURFACES ==> r
                == Err::<(), SurfaceError>(
                SurfaceError::CapacityExceeded { device: old(self).device_id() },
            ),
            r.is_err() ==> final(self).slots() == old(self).slots() && final(out)@ == old(out)@,
            r.is_ok() <==> !old(self).live_ids().contains(id) && old(self).slots().len()
                < MAX_SURFACES,
            r.is_ok() ==> {
                let slot = new_slot(
                    id,
                    source_info(source),
                    position,
                    size,
                    old(self).slots().len() as int,
                );
                &&& final(self).slots() == old(self).slots().push(slot)
                &&& final(out)@ == old(out)@ + create_requests(
                    old(self).device_id(),
                    label,
                    source,
                    slot,
                )
            },
    {
        if let Some(k) = self.find(id) {
            assert(ids_of(self.slots@)[k as int] == id);
            return Err(SurfaceError::DuplicateId { id });
        }
        if self.slots.len() >= MAX_SURFACES {
            return Err(SurfaceError::CapacityExceeded { device: self.device });
        }
        let ghost old_slots = self.slots@;
        let ghost old_out = out@;
        let ghost src = source;
        let info = source.info();
        let key = id as u64;
        let (plan, pixels) = Self::prepare_texture(source);
        out.push(
            EngineRequest::CreateTexture { device: self.device, label, texture: key, view: key, plan },
        );
        let ghost after_create = out@;
        if let Some(data) = pixels {
            let upload = Self::prepare_texture_write(key, data, &plan);
            out.push(EngineRequest::WriteTexture { device: self.device, upload });
        }
        assert(out@ == after_create + upload_requests(self.device, key, src));
        let surface = SurfaceInfo::new(key, key, info, position, size);
        let data = surface.generate_data(self.slots.len() as u32);
        out.push(EngineRequest::RequestInstance { device: self.device, id, data });
        let slot = SurfaceSlot { id, info: surface, data };
        self.slots.push(slot);
        proof {
            let s = self.slots@;
            assert(s == old_slots.push(slot));
            assert forall|i: int, j: int|
                0 <= i < s.len() && 0 <= j < s.len() && i != j implies #[trigger] s[i].id
                != #[trigger] s[j].id by {
                if i < old_slots.len() && j < old_slots.len() {
                    assert(s[i] == old_slots[i] && s[j] == old_slots[j]);
                } else if i < old_slots.len() {
                    assert(ids_of(old_slots)[i] == s[i].id);
                } else {
                    assert(ids_of(old_slots)[j] == s[j].id);
                }
            }
        }
        Ok(())
    }

    /// Moves surface `id` onto a new source: the pixels go into its texture
    /// when the texture fits them, else the texture is made anew. Its place
    /// in the texture array does not change.
    pub fn update_source(
        &mut self,
        out: &mut Vec<EngineRequest>,
        id: usize,
        source: SurfaceSource,
    ) -> (r: Result<(), SurfaceError>)
        requires
            old(self).wf(),
        ensures
            final(self).wf(),
            final(self).device_id() == old(self).device_id(),
            final(self).ids_booked() == old(self).ids_booked(),
            final(self).live_ids() == old(self).live_ids(),
            r.is_ok() <==> old(self).live_ids().contains(id),
            r.is_err() ==> r == Err::<(), SurfaceError>(SurfaceError::NotFound { id })
                && final(self).slots() == old(self).slots() && final(out)@ == old(out)@,
            forall|k: int|
                0 <= k < old(self).slots().len() && (#[trigger] old(self).slots()[k]).id == id
                    ==> {
                    &&& final(self).slots() == old(self).slots().update(
                        k,
                        with_source(old(self).slots()[k], source_info(source)),
                    )
                    &&& final(out)@ == old(out)@ + source_requests(
                        old(self).device_id(),
                        old(self).slots()[k],
                        source,
                    )
                },
    {
        let k = match self.find(id) {
            Some(k) => k,
            None => {
                return Err(SurfaceError::NotFound { id });
            },
        };
        let ghost old_slots = self.slots@;
        let ghost old_out = out@;
        let ghost src = source;
        assert(ids_of(old_slots)[k as int] == id);
        let mut slot = self.slots[k];
        let new_info = source.info();
        let reuse = match (slot.info.info, new_info) {
            (SurfaceSourceInfo::HostAllocation(a), SurfaceSourceInfo::HostAllocation(b)) => {
                a.size[0] == b.size[0] && a.size[1] == b.size[1] && a.format == b.format
            },
            _ => false,
        };
        proof {
            if reuse {
                if let (
                    SurfaceSourceInfo::HostAllocation(a),
                    SurfaceSourceInfo::HostAllocation(b),
                ) = (slot.info.info, new_info) {
                    assert(a.size =~= b.size);
                }
            }
        }
        let (plan, pixels) = Self::prepare_texture(source);
        if !reuse {
            out.push(
                EngineRequest::ReplaceTexture {
                    device: self.device,
                    texture: slot.info.texture_id,
                    view: slot.info.texture_view_id,
                    plan,
                },
            );
        }
        let ghost before_upload = out@;
        if let Some(data) = pixels {
            let upload = Self::prepare_texture_write(slot.info.texture_id, data, &plan);
            out.push(EngineRequest::WriteTexture { device: self.device, upload });
        }
        assert(out@ == before_upload + upload_requests(self.device, slot.info.texture_id, src));
        slot.info.info = new_info;
        self.slots.set(k, slot);
        proof {
            lemma_unique_after_update(old_slots, k as int, slot);
            assert forall|j: int|
                0 <= j < old_slots.len() && (#[trigger] old_slots[j]).id == id implies j == k by {
                if j != k {
                    assert(old_slots[j].id != old_slots[k as int].id);
                }
            }
            assert(out@ =~= old_out + source_requests(self.device, old_slots[k as int], src));
        }
        Ok(())
    }

    /// Copies raw `data` over the whole texture of surface `id`.
    pub fn update_data(&self, out: &mut Vec<EngineRequest>, id: usize, data: Vec<u8>) -> (r:
        Result<(), SurfaceError>)
        requires
            self.wf(),
        ensures
            r.is_ok() <==> self.live_ids().contains(id),
            r.is_err() ==> r == Err::<(), SurfaceError>(SurfaceError::NotFound { id })
                && final(out)@ == old(out)@,
            forall|k: int|
                0 <= k < self.slots().len() && (#[trigger] self.slots()[k]).id == id
                    ==> final(out)@ == old(out)@.push(
                    EngineRequest::WriteTexture {
                        device: self.device_id(),
                        upload: data_upload(self.slots()[k], data),
                    },
                ),
    {
        let k = match self.find(id) {
            Some(k) => k,
            None => {
                return Err(SurfaceError::NotFound { id });
            },
        };
        assert(ids_of(self.slots@)[k as int] == id);
        let slot = &self.slots[k];
        let (width, height, format) = match slot.info.info {
            SurfaceSourceInfo::HostAllocation(h) => (h.size[0], h.size[1], h.format),
            SurfaceSourceInfo::Dmabuf(d) => (
                d.size[0],
                d.size[1],
                TextureFormat::Rgba8UnormSrgb,
            ),
        };
        let upload = TextureUpload {
            texture: slot.info.texture_id,
            data,
            width,
            height,
            bytes_per_row: format.block_size() as u64 * width as u64,
            rows_per_image: height,
        };
        out.push(EngineRequest::WriteTexture { device: self.device, upload });
        proof {
            assert forall|j: int|
                0 <= j < self.slots@.len() && (#[trigger] self.slots@[j]).id == id implies j
                == k by {
                if j != k {
                    assert(self.slots@[j].id != self.slots@[k as int].id);
                }
            }
        }
        Ok(())
    }

    /// Gives surface `id` a new size; false if there is no such surface.
    pub fn resize_surface(&mut self, out: &mut Vec<EngineRequest>, id: usize, size: [u32; 2]) -> (r:
        bool)
        requires
            old(self).wf(),
        ensures
            final(self).wf(),
            final(self).device_id() == old(self).device_id(),
            final(self).ids_booked() == old(self).ids_booked(),
            final(self).live_ids() == old(self).live_ids(),
            r == old(self).live_ids().contains(id),
            !r ==> final(self).slots() == old(self).slots() && final(out)@ == old(out)@,
            forall|k: int|
                0 <= k < old(self).slots().len() && (#[trigger] old(self).slots()[k]).id == id
                    ==> {
                    &&& final(self).slots() == old(self).slots().update(
                        k,
                        with_size(old(self).slots()[k], size),
                    )
                    &&& final(out)@ == old(out)@.push(
                        EngineRequest::WriteInstanceField {
                            device: old(self).device_id(),
                            id,
                            field: InstanceField::Size(size),
                        },
                    )
                },
    {
        let k = match self.find(id) {
            Some(k) => k,
            None => {
                return false;
            },
        };
        let ghost old_slots = self.slots@;
        assert(ids_of(old_slots)[k as int] == id);
        let mut slot = self.slots[k];
        slot.info.size = size;
        slot.data.size = size;
        self.slots.set(k, slot);
        out.push(
            EngineRequest::WriteInstanceField {
                device: self.device,
                id,
                field: InstanceField::Size(size),
            },
        );
        proof {
            lemma_unique_after_update(old_slots, k as int, slot);
            assert forall|j: int|
                0 <= j < old_slots.len() && (#[trigger] old_slots[j]).id == id implies j == k by {
                if j != k {
                    assert(old_slots[j].id != old_slots[k as int].id);
                }
            }
        }
        true
    }

    /// Moves surface `id` to `position`; false if there is no such surface.
    pub fn move_surface(&mut self, out: &mut Vec<EngineRequest>, id: usize, position: [i32; 3]) -> (r:
        bool)
        requires
            old(self).wf(),
        ensures
            final(self).wf(),
            final(self).device_id() == old(self).device_id(),
            final(self).ids_booked() == old(self).ids_booked(),
            final(self).live_ids() == old(self).live_ids(),
            r == old(self).live_ids().contains(id),
            !r ==> final(self).slots() == old(self).slots() && final(out)@ == old(out)@,
            forall|k: int|
                0 <= k < old(self).slots().len() && (#[trigger] old(self).slots()[k]).id == id
                    ==> {
                    &&& final(self).slots() == old(self).slots().update(
                        k,
                        with_position(old(self).slots()[k], position),
                    )
                    &&& final(out)@ == old(out)@.push(
                        EngineRequest::WriteInstanceField {
                            device: old(self).device_id(),
                            id,
                            field: InstanceField::Position(position),
                        },
                    )
                },
    {
        let k = match self.find(id) {
            Some(k) => k,
            None => {
                return false;
            },
        };
        let ghost old_slots = self.slots@;
        assert(ids_of(old_slots)[k as int] == id);
        let mut slot = self.slots[k];
        slot.info.position = position;
        slot.data.position = position;
        self.slots.set(k, slot);
        out.push(
            EngineRequest::WriteInstanceField {
                device: self.device,
                id,
                field: InstanceField::Position(position),
            },
        );
        proof {
            lemma_unique_after_update(old_slots, k as int, slot);
            assert forall|j: int|
                0 <= j < old_slots.len() && (#[trigger] old_slots[j]).id == id implies j == k by {
                if j != k {
                    assert(old_slots[j].id != old_slots[k as int].id);
                }
            }
        }
        true
    }

    /// Removes surface `id`, keeping the order of the others; false if there
    /// is no such surface.
    pub fn remove_surface(&mut self, out: &mut Vec<EngineRequest>, id: usize) -> (r: bool)
        requires
            old(self).wf(),
        ensures
            final(self).wf(),
            final(self).device_id() == old(self).device_id(),
            final(self).ids_booked() == old(self).ids_booked(),
            r == old(self).live_ids().contains(id),
            !r ==> final(self).slots() == old(self).slots() && final(out)@ == old(out)@,
            forall|k: int|
                0 <= k < old(self).slots().len() && (#[trigger] old(self).slots()[k]).id == id
                    ==> {
                    &&& final(self).slots() == old(self).slots().remove(k)
                    &&& final(self).live_ids() == old(self).live_ids().remove(k)
                    &&& final(out)@ == old(out)@ + seq![
                        EngineRequest::ReleaseInstance { device: old(self).device_id(), id },
                        EngineRequest::RemoveTexture {
                            device: old(self).device_id(),
                            texture: old(self).slots()[k].info.texture_id,
                            view: old(self).slots()[k].info.texture_view_id,
                        },
                    ]
                },
    {
        let k = match self.find(id) {
            Some(k) => k,
            None => {
                return false;
            },
        };
        let ghost old_slots = self.slots@;
        let ghost old_out = out@;
        assert(ids_of(old_slots)[k as int] == id);
        let slot = self.slots.remove(k);
        out.push(EngineRequest::ReleaseInstance { device: self.device, id });
        out.push(
            EngineRequest::RemoveTexture {
                device: self.device,
                texture: slot.info.texture_id,
                view: slot.info.texture_view_id,
            },
        );
        proof {
            lemma_unique_after_remove(old_slots, k as int);
            assert forall|j: int|
                0 <= j < old_slots.len() && (#[trigger] old_slots[j]).id == id implies j == k by {
                if j != k {
                    assert(old_slots[j].id != old_slots[k as int].id);
                }
            }
            assert(out@ =~= old_out + seq![
                EngineRequest::ReleaseInstance { device: self.device, id },
                EngineRequest::RemoveTexture {
                    device: self.device,
                    texture: slot.info.texture_id,
                    view: slot.info.texture_view_id,
                },
            ]);
        }
        true
    }

    /// Sets every surface's image index to its position in the texture
    /// array, and sends each to the instance buffer.
    pub fn update_image_indexes(&mut self, out: &mut Vec<EngineRequest>)
        requires
            old(self).wf(),
        ensures
            final(self).wf(),
            final(self).device_id() == old(self).device_id(),
            final(self).ids_booked() == old(self).ids_booked(),
            final(self).slots() == reconciled(old(self).slots()),
            final(self).live_ids() == old(self).live_ids(),
            indices_consistent(final(self).slots()),
            final(out)@ == old(out)@ + index_writes(old(self).device_id(), old(self).slots()),
    {
        let ghost old_slots = self.slots@;
        let ghost old_out = out@;
        let ghost device = self.device;
        let ghost counter = self.id_counter;
        let mut k: usize = 0;
        while k < self.slots.len()
            invariant
                self.device == device,
                self.id_counter == counter,
                self.slots@.len() == old_slots.len(),
                old_slots.len() <= MAX_SURFACES,
                k <= old_slots.len(),
                forall|j: int| 0 <= j < k ==> self.slots@[j] == with_image_index(old_slots[j], j),
                forall|j: int| k <= j < old_slots.len() ==> self.slots@[j] == old_slots[j],
                out@.len() == old_out.len() + k,
                forall|j: int| 0 <= j < old_out.len() ==> out@[j] == old_out[j],
                forall|j: int|
                    0 <= j < k ==> out@[old_out.len() + j] == index_writes(
                        self.device,
                        old_slots,
                    )[j],
            decreases old_slots.len() - k,
        {
            let mut slot = self.slots[k];
            slot.data.image_index = k as u32;
            self.slots.set(k, slot);
            out.push(
                EngineRequest::WriteInstanceField {
                    device: self.device,
                    id: slot.id,
                    field: InstanceField::ImageIndex(k as u32),
                },
            );
            k = k + 1;
        }
        proof {
            assert(self.slots@ =~= reconciled(old_slots));
            assert(out@ =~= old_out + index_writes(self.device, old_slots));
            lemma_reconciled_keeps_ids(old_slots);
        }
    }

    /// The texture views of the live surfaces, in order: the texture array
    /// of the next bind group.
    pub fn rectangle_views(&self) -> (r: Vec<u64>)
        ensures
            r@ == views_of(self.slots()),
    {
        let mut r: Vec<u64> = Vec::new();
        let mut k: usize = 0;
        while k < self.slots.len()
            invariant
                k <= self.slots@.len(),
                r@ == views_of(self.slots@.subrange(0, k as int)),
            decreases self.slots@.len() - k,
        {
            r.push(self.slots[k].info.texture_view_id);
            proof {
                assert(self.slots@.subrange(0, k + 1) =~= self.slots@.subrange(0, k as int).push(
                    self.slots@[k as int],
                ));
            }
            k = k + 1;
            assert(r@ =~= views_of(self.slots@.subrange(0, k as int)));
        }
        assert(self.slots@.subrange(0, k as int) =~= self.slots@);
        r
    }

    /// Asks the engine to turn pending instance writes into upload commands.
    pub fn update(&self, out: &mut Vec<EngineRequest>)
        ensures
            final(out)@ == old(out)@.push(EngineRequest::FlushInstances { device: self.device_id() }),
    {
        out.push(EngineRequest::FlushInstances { device: self.device });
    }
}

} // verus!
