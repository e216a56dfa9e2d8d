use vstd::prelude::*;
use crate::error::SurfaceError;
use crate::surface::{SurfaceSource, TextureFormat};
use crate::surface::source_info;
use crate::surface_manager::{
    ids_of, new_slot, unique_ids, with_position, with_size, with_source, SurfaceSlot, MAX_SURFACES,
};

verus! {

/// A surface mutation waiting for the next tick.
#[derive(Clone, Debug)]
pub enum ScreenTaskEvent {
    CreateSurface {
        id: usize,
        label: String,
        source: SurfaceSource,
        position: [i32; 3],
        size: [u32; 2],
    },
    UpdateSource { id: usize, source: SurfaceSource },
    UpdateData { id: usize, data: Vec<u8> },
    ResizeSurface { id: usize, size: [u32; 2] },
    MoveSurface { id: usize, position: [i32; 3] },
    RemoveSurface { id: usize },
}

/// A change of the displays, as the windowing layer reports it.
#[derive(Clone, Copy, Debug)]
pub enum DisplayEvent {
    SwapchainCreated { device: u64, swapchain: u64, size: [u32; 2], format: TextureFormat },
    SwapchainDestroyed { swapchain: u64 },
    SwapchainUpdated { swapchain: u64, size: [u32; 2], format: TextureFormat },
}

/// Whether the event may change which surfaces are live.
pub open spec fn is_structural(e: ScreenTaskEvent) -> bool {
    e is CreateSurface || e is RemoveSurface
}

pub open spec fn has_structural(events: Seq<ScreenTaskEvent>) -> bool {
    exists|k: int| 0 <= k < events.len() && is_structural(#[trigger] events[k])
}

pub open spec fn event_id(e: ScreenTaskEvent) -> usize {
    match e {
        ScreenTaskEvent::CreateSurface { id, .. } => id,
        ScreenTaskEvent::UpdateSource { id, .. } => id,
        ScreenTaskEvent::UpdateData { id, .. } => id,
        ScreenTaskEvent::ResizeSurface { id, .. } => id,
        ScreenTaskEvent::MoveSurface { id, .. } => id,
        ScreenTaskEvent::RemoveSurface { id } => id,
    }
}

/// `ids` without any occurrence of `id`, the rest in order.
pub open spec fn without(ids: Seq<usize>, id: usize) -> Seq<usize>
    decreases ids.len(),
{
    if ids.len() == 0 {
        ids
    } else if ids.last() == id {
        without(ids.drop_last(), id)
    } else {
        without(ids.drop_last(), id).push(ids.last())
    }
}

/// The live ids of a device after `e`, from `ids` before it.
pub open spec fn step_ids(ids: Seq<usize>, e: ScreenTaskEvent) -> Seq<usize> {
    match e {
        ScreenTaskEvent::CreateSurface { id, .. } => if ids.contains(id) || ids.len()
            >= MAX_SURFACES {
            ids
        } else {
            ids.push(id)
        },
        ScreenTaskEvent::RemoveSurface { id } => without(ids, id),
        _ => ids,
    }
}

/// The live ids of a device after `events`, in order, from `ids`.
pub open spec fn ids_after(ids: Seq<usize>, events: Seq<ScreenTaskEvent>) -> Seq<usize>
    decreases events.len(),
{
    if events.len() == 0 {
        ids
    } else {
        step_ids(ids_after(ids, events.drop_last()), events.last())
    }
}

/// `s` with `f` applied to the surface of `id`.
pub open spec fn map_id(s: Seq<SurfaceSlot>, id: usize, f: spec_fn(SurfaceSlot) -> SurfaceSlot) -> Seq<
    SurfaceSlot,
> {
    s.map_values(|x: SurfaceSlot| if x.id == id { f(x) } else { x })
}

/// `s` without the surface of `id`, the rest in order.
pub open spec fn drop_id(s: Seq<SurfaceSlot>, id: usize) -> Seq<SurfaceSlot>
    decreases s.len(),
{
    if s.len() == 0 {
        s
    } else if s.last().id == id {
        drop_id(s.drop_last(), id)
    } else {
        drop_id(s.drop_last(), id).push(s.last())
    }
}

/// The surfaces of a device after `e`, from `s` before it.
pub open spec fn step_slots(s: Seq<SurfaceSlot>, e: ScreenTaskEvent) -> Seq<SurfaceSlot> {
    match e {
        ScreenTaskEvent::CreateSurface { id, source, position, size, .. } => if ids_of(s).contains(
            id,
        ) || s.len() >= MAX_SURFACES {
            s
        } else {
            s.push(new_slot(id, source_info(source), position, size, s.len() as int))
        },
        ScreenTaskEvent::UpdateSource { id, source } => map_id(
            s,
            id,
            |x: SurfaceSlot| with_source(x, source_info(source)),
        ),
        ScreenTaskEvent::ResizeSurface { id, size } => map_id(
            s,
            id,
            |x: SurfaceSlot| with_size(x, size),
        ),
        ScreenTaskEvent::MoveSurface { id, position } => map_id(
            s,
            id,
            |x: SurfaceSlot| with_position(x, position),
        ),
        ScreenTaskEvent::RemoveSurface { id } => drop_id(s, id),
        ScreenTaskEvent::UpdateData { .. } => s,
    }
}

/// The surfaces of a device after `events`, in order, from `s`.
pub open spec fn slots_after(s: Seq<SurfaceSlot>, events: Seq<ScreenTaskEvent>) -> Seq<SurfaceSlot>
    decreases events.len(),
{
    if events.len() == 0 {
        s
    } else {
        step_slots(slots_after(s, events.drop_last()), events.last())
    }
}

pub proof fn lemma_map_id(
    s: Seq<SurfaceSlot>,
    id: usize,
    f: spec_fn(SurfaceSlot) -> SurfaceSlot,
    k: int,
)
    requires
        unique_ids(s),
        0 <= k < s.len(),
        s[k].id == id,
    ensures
        map_id(s, id, f) == s.update(k, f(s[k])),
{
    assert forall|j: int| 0 <= j < s.len() && j != k implies s[j].id != id by {
        assert(s[j].id != s[k].id);
    }
    assert(map_id(s, id, f) =~= s.update(k, f(s[k])));
}

pub proof fn lemma_map_id_absent(s: Seq<SurfaceSlot>, id: usize, f: spec_fn(SurfaceSlot) -> SurfaceSlot)
    requires
        forall|j: int| 0 <= j < s.len() ==> (#[trigger] s[j]).id != id,
    ensures
        map_id(s, id, f) == s,
{
    assert(map_id(s, id, f) =~= s);
}

pub proof fn lemma_drop_id_absent(s: Seq<SurfaceSlot>, id: usize)
    requires
        forall|j: int| 0 <= j < s.len() ==> (#[trigger] s[j]).id != id,
    ensures
        drop_id(s, id) == s,
    decreases s.len(),
{
    if s.len() > 0 {
        let init = s.drop_last();
        assert forall|j: int| 0 <= j < init.len() implies (#[trigger] init[j]).id != id by {
            assert(init[j] == s[j]);
        }
        lemma_drop_id_absent(init, id);
        assert(s.last() == s[s.len() - 1]);
        assert(init.push(s.last()) =~= s);
    }
}

pub proof fn lemma_drop_id_is_remove(s: Seq<SurfaceSlot>, id: usize, k: int)
    requires
        unique_ids(s),
        0 <= k < s.len(),
        s[k].id == id,
    ensures
        drop_id(s, id) == s.remove(k),
    decreases s.len(),
{
    let n = s.len();
    let init = s.drop_last();
    if k == n - 1 {
        assert forall|j: int| 0 <= j < init.len() implies (#[trigger] init[j]).id != id by {
            assert(init[j] == s[j]);
            assert(s[j].id != s[k].id);
        }
        lemma_drop_id_absent(init, id);
        assert(init =~= s.remove(k));
    } else {
        assert(s.last() == s[n - 1]);
        assert(s[n - 1].id != s[k].id);
        assert(unique_ids(init)) by {
            assert forall|i: int, j: int|
                0 <= i < init.len() && 0 <= j < init.len() && i != j implies #[trigger] init[i].id
                != #[trigger] init[j].id by {
                assert(init[i] == s[i] && init[j] == s[j]);
            }
        }
        assert(init[k] == s[k]);
        lemma_drop_id_is_remove(init, id, k);
        assert(init.remove(k).push(s.last()) =~= s.remove(k));
    }
}

/// What `e` fails with on a device of `device` whose live ids are `ids`.
pub open spec fn event_error(device: u64, ids: Seq<usize>, e: ScreenTaskEvent) -> Option<
    SurfaceError,
> {
    match e {
        ScreenTaskEvent::CreateSurface { id, .. } => if ids.contains(id) {
            Some(SurfaceError::DuplicateId { id })
        } else if ids.len() >= MAX_SURFACES {
            Some(SurfaceError::CapacityExceeded { device })
        } else {
            None
        },
        _ => if ids.contains(event_id(e)) {
            None
        } else {
            Some(SurfaceError::NotFound { id: event_id(e) })
        },
    }
}

pub open spec fn distinct(ids: Seq<usize>) -> bool {
    forall|i: int, j: int|
        0 <= i < ids.len() && 0 <= j < ids.len() && i != j ==> ids[i] != ids[j]
}

pub proof fn lemma_without_absent(ids: Seq<usize>, id: usize)
    requires
        !ids.contains(id),
    ensures
        without(ids, id) == ids,
    decreases ids.len(),
{
    if ids.len() > 0 {
        assert(!ids.drop_last().contains(id)) by {
            if ids.drop_last().contains(id) {
                let k = choose|k: int| 0 <= k < ids.drop_last().len() && ids.drop_last()[k] == id;
                assert(ids[k] == id);
            }
        }
        lemma_without_absent(ids.drop_last(), id);
        assert(ids.last() != id) by {
            assert(ids[ids.len() - 1] == ids.last());
        }
        assert(ids.drop_last().push(ids.last()) =~= ids);
    }
}

/// In a sequence without repeats, leaving `id` out is removing its one place.
pub proof fn lemma_without_is_remove(ids: Seq<usize>, id: usize, k: int)
    requires
        distinct(ids),
        0 <= k < ids.len(),
        ids[k] == id,
    ensures
        without(ids, id) == ids.remove(k),
    decreases ids.len(),
{
    let n = ids.len();
    let init = ids.drop_last();
    if k == n - 1 {
        assert(!init.contains(id)) by {
            if init.contains(id) {
                let j = choose|j: int| 0 <= j < init.len() && init[j] == id;
                assert(ids[j] == id && j != k);
            }
        }
        lemma_without_absent(init, id);
        assert(init =~= ids.remove(k));
    } else {
        assert(ids.last() != id) by {
            assert(ids[n - 1] == ids.last());
        }
        assert(distinct(init));
        lemma_without_is_remove(init, id, k);
        assert(init.remove(k).push(ids.last()) =~= ids.remove(k));
    }
}

} // verus!
