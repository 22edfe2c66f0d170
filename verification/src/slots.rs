//! The slot maps that hold nodes and links, from the `slotmap` crate.

use slotmap::{DefaultKey, Key, KeyData, SlotMap};
use vstd::prelude::*;

use crate::ids::{LinkId, NodeId};
use crate::network::{ControlNode, Link};

verus! {

/// The slot a key is for.
pub open spec fn slot_of(raw: u64) -> int {
    (raw % crate::ids::SLOT_SPAN) as int
}

/// The version of its slot that a key is for.
pub open spec fn version_of(raw: u64) -> int {
    (raw / crate::ids::SLOT_SPAN) as int
}

/// Whether no slot but the first is free.
pub open spec fn none_free(versions: Seq<u32>) -> bool {
    forall|i: int| 1 <= i < versions.len() ==> (#[trigger] versions[i]) % 2 == 1
}

/// Whether a key has the version of its slot.
pub open spec fn is_current(versions: Seq<u32>, raw: u64) -> bool {
    1 <= slot_of(raw) < versions.len() && versions[slot_of(raw)] == version_of(raw)
}

/// Whether a key is handed out as a slot map does, and what becomes of the slots' versions.
pub open spec fn handed_out(before: Seq<u32>, raw: u64, after: Seq<u32>) -> bool {
    let (slot, version) = (slot_of(raw), version_of(raw));
    if none_free(before) {
        slot == before.len() && version == 1 && after == before.push(1)
    } else {
        &&& 1 <= slot < before.len()
        &&& before[slot] % 2 == 0
        &&& version == before[slot] + 1
        &&& after == before.update(slot, version as u32)
    }
}

/// Whether a key that was handed out is taken back, and what becomes of the slots' versions.
pub open spec fn taken_back(before: Seq<u32>, raw: u64, after: Seq<u32>) -> bool {
    let (slot, version) = (slot_of(raw), version_of(raw));
    &&& is_current(before, raw)
    &&& version % 2 == 1
    &&& after == before.update(
        slot,
        if version == u32::MAX {
            0
        } else {
            (version + 1) as u32
        },
    )
}

/// Nodes in a slot map, each under the handle that the map gave it.
#[verifier::external_body]
pub struct NodeSlots {
    slots: SlotMap<DefaultKey, ControlNode>,
}

/// What the slot map stores: each value under the handle that its key is.
pub uninterp spec fn stored_nodes(slots: NodeSlots) -> Map<NodeId, ControlNode>;

/// What the slot map holds: each value under its key. A handle that is no key stands
/// for nothing in it.
pub open spec fn node_entries(slots: NodeSlots) -> Map<NodeId, ControlNode> {
    let stored = stored_nodes(slots);
    Map::new(
        |k: NodeId| stored.contains_key(k) && crate::ids::is_key(k.spec_raw()),
        |k: NodeId| stored[k],
    )
}

/// The version of each of the slot map's slots: odd while it holds a value, even while it is free.
/// The first slot is never used.
pub uninterp spec fn node_versions(slots: NodeSlots) -> Seq<u32>;

impl NodeSlots {
    /// `SlotMap::with_key`: an empty map.
    #[verifier::external_body]
    pub(crate) fn empty() -> (r: Self)
        ensures
            forall|k: NodeId| !(#[trigger] stored_nodes(r).contains_key(k)),
            node_versions(r) == seq![0u32],
    {
        NodeSlots { slots: SlotMap::with_key() }
    }

    /// `SlotMap::insert`: puts the value under a key that the map does not hold, that is not
    /// null, and whose slot no key of the map has. A free slot is used again, at its next
    /// version; where none is free, a new slot comes after all the others. The map panics when it
    /// is full.
    #[verifier::external_body]
    pub(crate) fn insert(&mut self, value: ControlNode) -> (r: NodeId)
        requires
            node_entries(*old(self)).len() < u32::MAX - 1,
        ensures
            !node_entries(*old(self)).contains_key(r),
            crate::ids::is_key(r.spec_raw()),
            !crate::ids::is_null(r.spec_raw()),
            forall|k: NodeId| #[trigger]
                node_entries(*old(self)).contains_key(k) ==> !crate::ids::same_slot(k, r),
            node_entries(*final(self)) == node_entries(*old(self)).insert(r, value),
            handed_out(node_versions(*old(self)), r.spec_raw(), node_versions(*final(self))),
    {
        NodeId { raw: self.slots.insert(value).data().as_ffi() }
    }

    /// `SlotMap::get`: the value under the key, if the map holds the key, which it does only while
    /// the key has the version of its slot.
    #[verifier::external_body]
    pub(crate) fn get(&self, id: NodeId) -> (r: Option<&ControlNode>)
        requires
            crate::ids::is_key(id.spec_raw()),
        ensures
            r is Some ==> is_current(node_versions(*self), id.spec_raw()),
            r == (if node_entries(*self).contains_key(id) {
                Some(&node_entries(*self)[id])
            } else {
                None
            }),
    {
        self.slots.get(DefaultKey::from(KeyData::from_ffi(id.raw)))
    }

    /// `SlotMap::get_mut`: the value under the key, to be changed in place.
    #[verifier::external_body]
    pub(crate) fn get_mut(&mut self, id: NodeId) -> (r: Option<&mut ControlNode>)
        requires
            crate::ids::is_key(id.spec_raw()),
        ensures
            r is Some <==> node_entries(*old(self)).contains_key(id),
            r is None ==> node_entries(*final(self)) == node_entries(*old(self)),
            r matches Some(value) ==> *value == node_entries(*old(self))[id] && node_entries(
                *final(self),
            ) == node_entries(*old(self)).insert(id, *final(value)),
            node_versions(*final(self)) == node_versions(*old(self)),
    {
        self.slots.get_mut(DefaultKey::from(KeyData::from_ffi(id.raw)))
    }

    /// `SlotMap::remove`: takes the key and its value out, if the map holds the key. Its slot is
    /// then free, at its next version; versions wrap around.
    #[verifier::external_body]
    pub(crate) fn remove(&mut self, id: NodeId) -> (r: Option<ControlNode>)
        requires
            crate::ids::is_key(id.spec_raw()),
        ensures
            r == (if node_entries(*old(self)).contains_key(id) {
                Some(node_entries(*old(self))[id])
            } else {
                None
            }),
            node_entries(*final(self)) == node_entries(*old(self)).remove(id),
            r is Some ==> taken_back(
                node_versions(*old(self)),
                id.spec_raw(),
                node_versions(*final(self)),
            ),
            r is None ==> node_versions(*final(self)) == node_versions(*old(self)),
    {
        self.slots.remove(DefaultKey::from(KeyData::from_ffi(id.raw)))
    }
}

/// Links in a slot map, each under the handle that the map gave it.
#[verifier::external_body]
pub struct LinkSlots {
    slots: SlotMap<DefaultKey, Link>,
}

/// What the slot map stores: each value under the handle that its key is.
pub uninterp spec fn stored_links(slots: LinkSlots) -> Map<LinkId, Link>;

/// What the slot map holds: each value under its key. A handle that is no key stands
/// for nothing in it.
pub open spec fn link_entries(slots: LinkSlots) -> Map<LinkId, Link> {
    let stored = stored_links(slots);
    Map::new(
        |k: LinkId| stored.contains_key(k) && crate::ids::is_key(k.spec_raw()),
        |k: LinkId| stored[k],
    )
}

/// The version of each of the slot map's slots: odd while it holds a value, even while it is free.
/// The first slot is never used.
pub uninterp spec fn link_versions(slots: LinkSlots) -> Seq<u32>;

impl LinkSlots {
    /// `SlotMap::with_key`: an empty map.
    #[verifier::external_body]
    pub(crate) fn empty() -> (r: Self)
        ensures
            forall|k: LinkId| !(#[trigger] stored_links(r).contains_key(k)),
            link_versions(r) == seq![0u32],
    {
        LinkSlots { slots: SlotMap::with_key() }
    }

    /// `SlotMap::insert`: puts the value under a key that the map does not hold and that is not
    /// null. A free slot is
    /// used again, at its next version; where none is free, a new slot comes after all the others.
    /// The map panics when it is full.
    #[verifier::external_body]
    pub(crate) fn insert(&mut self, value: Link) -> (r: LinkId)
        requires
            link_entries(*old(self)).len() < u32::MAX - 1,
        ensures
            !link_entries(*old(self)).contains_key(r),
            crate::ids::is_key(r.spec_raw()),
            !crate::ids::is_null(r.spec_raw()),
            link_entries(*final(self)) == link_entries(*old(self)).insert(r, value),
            handed_out(link_versions(*old(self)), r.spec_raw(), link_versions(*final(self))),
    {
        LinkId { raw: self.slots.insert(value).data().as_ffi() }
    }

    /// `SlotMap::get`: the value under the key, if the map holds the key, which it does only while
    /// the key has the version of its slot.
    #[verifier::external_body]
    pub(crate) fn get(&self, id: LinkId) -> (r: Option<&Link>)
        requires
            crate::ids::is_key(id.spec_raw()),
        ensures
            r is Some ==> is_current(link_versions(*self), id.spec_raw()),
            r == (if link_entries(*self).contains_key(id) {
                Some(&link_entries(*self)[id])
            } else {
                None
            }),
    {
        self.slots.get(DefaultKey::from(KeyData::from_ffi(id.raw)))
    }

    /// `SlotMap::get_mut`: the value under the key, to be changed in place.
    #[verifier::external_body]
    pub(crate) fn get_mut(&mut self, id: LinkId) -> (r: Option<&mut Link>)
        requires
            crate::ids::is_key(id.spec_raw()),
        ensures
            r is Some <==> link_entries(*old(self)).contains_key(id),
            r is None ==> link_entries(*final(self)) == link_entries(*old(self)),
            r matches Some(value) ==> *value == link_entries(*old(self))[id] && link_entries(
                *final(self),
            ) == link_entries(*old(self)).insert(id, *final(value)),
            link_versions(*final(self)) == link_versions(*old(self)),
    {
        self.slots.get_mut(DefaultKey::from(KeyData::from_ffi(id.raw)))
    }

    /// `SlotMap::remove`: takes the key and its value out, if the map holds the key. Its slot is
    /// then free, at its next version; versions wrap around.
    #[verifier::external_body]
    pub(crate) fn remove(&mut self, id: LinkId) -> (r: Option<Link>)
        requires
            crate::ids::is_key(id.spec_raw()),
        ensures
            r == (if link_entries(*old(self)).contains_key(id) {
                Some(link_entries(*old(self))[id])
            } else {
                None
            }),
            link_entries(*final(self)) == link_entries(*old(self)).remove(id),
            r is Some ==> taken_back(
                link_versions(*old(self)),
                id.spec_raw(),
                link_versions(*final(self)),
            ),
            r is None ==> link_versions(*final(self)) == link_versions(*old(self)),
    {
        self.slots.remove(DefaultKey::from(KeyData::from_ffi(id.raw)))
    }
}

} // verus!
