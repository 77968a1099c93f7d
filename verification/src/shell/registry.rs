//! The arena of window records, kept in a slot map.
//!
//! Nothing here is proved: each function states what the slot map does. A
//! window key stands for a key of the slot map by the 64 bits that the slot
//! map gives for it; for a key with a live generation those bits give the
//! key back.

use crate::geometry::Rect;
use crate::shell::window::{SurfaceId, WindowElement, WindowId};
use vstd::prelude::*;

verus! {

/// The arena that owns every window record of one monitor: a
/// `slotmap::SlotMap` of window records under default keys.
#[verifier::external_body]
pub struct Registry {
    slots: slotmap::SlotMap<slotmap::DefaultKey, WindowElement>,
}

/// The records that a registry holds, by key.
pub uninterp spec fn records(r: Registry) -> Map<WindowId, WindowElement>;

/// Most records that a registry takes. The slot map refuses an insertion
/// only when it is asked to hold more.
pub const REGISTRY_LIMIT: usize = 0xffff_fffd;

/// `slotmap::SlotMap::new`: the new map holds no record.
#[verifier::external_body]
pub(crate) fn registry_new() -> (fresh: Registry)
    ensures
        records(fresh).dom() == Set::<WindowId>::empty(),
{
    Registry { slots: slotmap::SlotMap::new() }
}

/// `slotmap::SlotMap::len`: the number of records held.
#[verifier::external_body]
pub(crate) fn registry_len(r: &Registry) -> (n: usize)
    ensures
        n == records(*r).dom().len(),
{
    r.slots.len()
}

/// `slotmap::SlotMap::get`, with the key made by `slotmap::KeyData::from_ffi`:
/// the record under `id`, if the map holds one.
#[verifier::external_body]
pub(crate) fn registry_get(r: &Registry, id: WindowId) -> (found: Option<&WindowElement>)
    requires
        id.live(),
    ensures
        found == (if records(*r).contains_key(id) {
            Some(&records(*r)[id])
        } else {
            None
        }),
{
    r.slots.get(slotmap::KeyData::from_ffi(id.as_raw()).into())
}

/// `slotmap::SlotMap::get_mut`, with the key made by
/// `slotmap::KeyData::from_ffi`: the record under `id`, if the map holds
/// one. What the caller writes through the reference is what the map holds
/// under `id` afterwards; no other record changes.
#[verifier::external_body]
pub(crate) fn registry_get_mut(r: &mut Registry, id: WindowId) -> (found: Option<&mut WindowElement>)
    requires
        id.live(),
    ensures
        found is Some == records(*old(r)).contains_key(id),
        found is Some ==> *(found->0) == records(*old(r))[id],
        found is Some ==> records(*final(r)) == records(*old(r)).insert(id, *final(found->0)),
        found is None ==> records(*final(r)) == records(*old(r)),
{
    r.slots.get_mut(slotmap::KeyData::from_ffi(id.as_raw()).into())
}

/// `slotmap::SlotMap::insert_with_key`, with the key's bits taken by
/// `slotmap::KeyData::as_ffi`: stores the record of a newly mapped window
/// under a key that the map did not hold, with that key written into the
/// record, and returns the key. The slot map panics when full, which the
/// bound on the number of records rules out.
#[verifier::external_body]
pub(crate) fn registry_insert(
    r: &mut Registry,
    surface: SurfaceId,
    float_geo: Rect,
    floating: bool,
) -> (id: WindowId)
    requires
        records(*old(r)).dom().finite(),
        records(*old(r)).dom().len() <= REGISTRY_LIMIT,
    ensures
        !records(*old(r)).contains_key(id),
        records(*final(r)) == records(*old(r)).insert(
            id,
            WindowElement::fresh(id, surface, float_geo, floating),
        ),
{
    let key = r.slots.insert_with_key(
        |k| {
            let id = WindowId::from_raw(slotmap::Key::data(&k).as_ffi());
            WindowElement::new(id, surface, float_geo, floating)
        },
    );
    WindowId::from_raw(slotmap::Key::data(&key).as_ffi())
}

/// `slotmap::SlotMap::remove`, with the key made by
/// `slotmap::KeyData::from_ffi`: takes the record under `id` out of the map
/// and returns it, if the map holds one.
#[verifier::external_body]
pub(crate) fn registry_remove(r: &mut Registry, id: WindowId) -> (gone: Option<WindowElement>)
    requires
        id.live(),
    ensures
        gone == (if records(*old(r)).contains_key(id) {
            Some(records(*old(r))[id])
        } else {
            None
        }),
        records(*final(r)) == records(*old(r)).remove(id),
{
    r.slots.remove(slotmap::KeyData::from_ffi(id.as_raw()).into())
}

/// `slotmap::SlotMap::keys`, with each key's bits taken by
/// `slotmap::KeyData::as_ffi`: every key that the map holds. The slot map
/// walks its slots from the first to the last, so the keys come in the
/// ascending order of their slots, each once.
#[verifier::external_body]
pub(crate) fn registry_keys(r: &Registry) -> (ids: Vec<WindowId>)
    ensures
        forall|id: WindowId| ids@.contains(id) == records(*r).contains_key(id),
        forall|i: int, j: int| 0 <= i < j < ids@.len() ==> ids@[i].slot() < ids@[j].slot(),
{
    r.slots.keys().map(|k| WindowId::from_raw(slotmap::Key::data(&k).as_ffi())).collect()
}

} // verus!
