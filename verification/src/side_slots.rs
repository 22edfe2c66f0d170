//! What a world keeps beside a network's nodes, in secondary maps from the `slotmap` crate.

use slotmap::{DefaultKey, Key, KeyData, SecondaryMap};
use vstd::prelude::*;

use crate::behaviour::Behaviour;
use crate::ids::NodeId;
use crate::world::NodeStats;

verus! {

/// Whether the version of `a` comes before that of `b`. Versions wrap around, so the one that is
/// less than half way round ahead of the other is the later one.
pub open spec fn is_older(a: NodeId, b: NodeId) -> bool {
    let (x, y) = (
        a.spec_raw() / crate::ids::SLOT_SPAN,
        b.spec_raw() / crate::ids::SLOT_SPAN,
    );
    (x - y) % (crate::ids::SLOT_SPAN as int) >= 0x8000_0000
}

/// Whether a later handle than `k` is in its slot already.
pub open spec fn outdated(ids: Set<NodeId>, k: NodeId) -> bool {
    exists|j: NodeId| #[trigger] ids.contains(j) && j != k && crate::ids::same_slot(j, k) && is_older(k, j)
}

/// What a secondary map holds once `v` was put under `k`. Handles that are no keys, null handles
/// and outdated handles change nothing; otherwise `k` takes its slot over from any earlier handle.
pub open spec fn entered<V>(m: Map<NodeId, V>, k: NodeId, v: V) -> Map<NodeId, V> {
    if !crate::ids::is_key(k.spec_raw()) || crate::ids::is_null(k.spec_raw()) || outdated(m.dom(), k) {
        m
    } else {
        Map::new(
            |j: NodeId| j == k || m.contains_key(j) && !crate::ids::same_slot(j, k),
            |j: NodeId|
                if j == k {
                    v
                } else {
                    m[j]
                },
        )
    }
}

/// The logics attached to nodes.
#[verifier::external_body]
pub struct LogicSlots {
    slots: SecondaryMap<DefaultKey, Behaviour>,
}

/// What the secondary map stores: each value under the handle that its key is.
pub uninterp spec fn stored_logics(slots: LogicSlots) -> Map<NodeId, Behaviour>;

/// What the secondary map holds: each value under its key. A handle that is no key stands
/// for nothing in it.
pub open spec fn logic_entries(slots: LogicSlots) -> Map<NodeId, Behaviour> {
    let stored = stored_logics(slots);
    Map::new(
        |k: NodeId| stored.contains_key(k) && crate::ids::is_key(k.spec_raw()),
        |k: NodeId| stored[k],
    )
}

impl LogicSlots {
    /// `SecondaryMap::new`: an empty map.
    #[verifier::external_body]
    pub(crate) fn empty() -> (r: Self)
        ensures
            forall|k: NodeId| !(#[trigger] stored_logics(r).contains_key(k)),
    {
        LogicSlots { slots: SecondaryMap::new() }
    }

    /// `SecondaryMap::insert`: puts the value under the key, in place of what is in the key's
    /// slot, unless the key is null or the slot holds a later key.
    #[verifier::external_body]
    pub(crate) fn insert(&mut self, id: NodeId, value: Behaviour)
        requires
            crate::ids::is_key(id.spec_raw()),
        ensures
            logic_entries(*final(self)) == entered(logic_entries(*old(self)), id, value),
    {
        self.slots.insert(DefaultKey::from(KeyData::from_ffi(id.raw)), value);
    }

    /// `SecondaryMap::get`: the value under the key, if the map holds the key.
    #[verifier::external_body]
    pub(crate) fn get(&self, id: NodeId) -> (r: Option<&Behaviour>)
        requires
            crate::ids::is_key(id.spec_raw()),
        ensures
            r == (if logic_entries(*self).contains_key(id) {
                Some(&logic_entries(*self)[id])
            } else {
                None
            }),
    {
        self.slots.get(DefaultKey::from(KeyData::from_ffi(id.raw)))
    }

    /// `SecondaryMap::get_mut`: the value under the key, to be changed in place.
    #[verifier::external_body]
    pub(crate) fn get_mut(&mut self, id: NodeId) -> (r: Option<&mut Behaviour>)
        requires
            crate::ids::is_key(id.spec_raw()),
        ensures
            r is Some <==> logic_entries(*old(self)).contains_key(id),
            r is None ==> logic_entries(*final(self)) == logic_entries(*old(self)),
            r matches Some(value) ==> *value == logic_entries(*old(self))[id] && logic_entries(
                *final(self),
            ) == logic_entries(*old(self)).insert(id, *final(value)),
    {
        self.slots.get_mut(DefaultKey::from(KeyData::from_ffi(id.raw)))
    }

    /// `SecondaryMap::remove`: takes the key and its value out, if the map holds the key.
    #[verifier::external_body]
    pub(crate) fn remove(&mut self, id: NodeId)
        requires
            crate::ids::is_key(id.spec_raw()),
        ensures
            logic_entries(*final(self)) == logic_entries(*old(self)).remove(id),
    {
        self.slots.remove(DefaultKey::from(KeyData::from_ffi(id.raw)));
    }

    /// `SecondaryMap::keys`: every key the map holds, in slot order.
    #[verifier::external_body]
    pub(crate) fn ids(&self) -> (r: Vec<NodeId>)
        ensures
            forall|k: NodeId| #[trigger] r@.contains(k) <==> logic_entries(*self).contains_key(k),
            forall|i: int, j: int| 0 <= i < j < r@.len() ==> #[trigger] r@[i].rank() < #[trigger] r@[
                j
            ].rank(),
    {
        self.slots.keys().map(|k| NodeId { raw: k.data().as_ffi() }).collect()
    }
}

/// The nodes' traffic counters.
#[verifier::external_body]
pub struct StatSlots {
    slots: SecondaryMap<DefaultKey, NodeStats>,
}

/// What the secondary map stores: each value under the handle that its key is.
pub uninterp spec fn stored_stats(slots: StatSlots) -> Map<NodeId, NodeStats>;

/// What the secondary map holds: each value under its key. A handle that is no key stands
/// for nothing in it.
pub open spec fn stat_entries(slots: StatSlots) -> Map<NodeId, NodeStats> {
    let stored = stored_stats(slots);
    Map::new(
        |k: NodeId| stored.contains_key(k) && crate::ids::is_key(k.spec_raw()),
        |k: NodeId| stored[k],
    )
}

impl StatSlots {
    /// `SecondaryMap::new`: an empty map.
    #[verifier::external_body]
    pub(crate) fn empty() -> (r: Self)
        ensures
            forall|k: NodeId| !(#[trigger] stored_stats(r).contains_key(k)),
    {
        StatSlots { slots: SecondaryMap::new() }
    }

    /// `SecondaryMap::insert`: puts the value under the key, in place of what is in the key's
    /// slot, unless the key is null or the slot holds a later key.
    #[verifier::external_body]
    pub(crate) fn insert(&mut self, id: NodeId, value: NodeStats)
        requires
            crate::ids::is_key(id.spec_raw()),
        ensures
            stat_entries(*final(self)) == entered(stat_entries(*old(self)), id, value),
    {
        self.slots.insert(DefaultKey::from(KeyData::from_ffi(id.raw)), value);
    }

    /// `SecondaryMap::get`: the value under the key, if the map holds the key.
    #[verifier::external_body]
    pub(crate) fn get(&self, id: NodeId) -> (r: Option<&NodeStats>)
        requires
            crate::ids::is_key(id.spec_raw()),
        ensures
            r == (if stat_entries(*self).contains_key(id) {
                Some(&stat_entries(*self)[id])
            } else {
                None
            }),
    {
        self.slots.get(DefaultKey::from(KeyData::from_ffi(id.raw)))
    }

    /// `SecondaryMap::remove`: takes the key and its value out, if the map holds the key.
    #[verifier::external_body]
    pub(crate) fn remove(&mut self, id: NodeId)
        requires
            crate::ids::is_key(id.spec_raw()),
        ensures
            stat_entries(*final(self)) == stat_entries(*old(self)).remove(id),
    {
        self.slots.remove(DefaultKey::from(KeyData::from_ffi(id.raw)));
    }
}

} // verus!
