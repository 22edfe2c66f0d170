//! Which handles were given out, and which of them are spent: a handle to something that was
//! removed never comes to mean something newer.

use vstd::prelude::*;

use crate::ids::{LinkId, NodeId};

verus! {

/// Whether a handle was given out for an earlier version of its slot than the present one.
pub open spec fn spent(versions: Seq<u32>, raw: u64) -> bool {
    let slot = crate::slots::slot_of(raw);
    1 <= slot < versions.len() && crate::slots::version_of(raw) < versions[slot]
}

/// Whether no slot was used so often that its version is about to wrap around. It takes two
/// billion removals from one slot to get there.
pub open spec fn unworn(versions: Seq<u32>) -> bool {
    forall|i: int| 0 <= i < versions.len() ==> (#[trigger] versions[i]) < u32::MAX
}

/// Whether no slot was ever used again.
pub open spec fn unused_again(versions: Seq<u32>) -> bool {
    forall|i: int| 1 <= i < versions.len() ==> (#[trigger] versions[i]) == 1
}

/// Whether a handle is a key that was not given out before: neither null nor spent.
pub open spec fn is_new_to(versions: Seq<u32>, raw: u64) -> bool {
    crate::ids::is_key(raw) && !crate::ids::is_null(raw) && !spent(versions, raw)
}

/// Whether every spent handle is still spent.
pub open spec fn stays_spent(before: Seq<u32>, after: Seq<u32>) -> bool {
    forall|raw: u64| spent(before, raw) ==> #[trigger] spent(after, raw)
}

/// Whether every spent handle is still spent, as long as no slot is worn.
pub open spec fn keeps_spent(before: Seq<u32>, after: Seq<u32>) -> bool {
    unworn(before) ==> unworn(after) && forall|raw: u64|
        spent(before, raw) ==> #[trigger] spent(after, raw)
}

/// The versions of the slots that a network's handles are for.
#[verifier::ext_equal]
pub struct Issued {
    pub nodes: Seq<u32>,
    pub links: Seq<u32>,
}

impl Issued {
    /// Whether every node and link that was ever created is still there.
    pub open spec fn nothing_removed(self) -> bool {
        unused_again(self.nodes) && unused_again(self.links)
    }

    /// Whether every spent handle is still spent, as long as no slot is worn.
    pub open spec fn keeps_spent(self, after: Issued) -> bool {
        keeps_spent(self.nodes, after.nodes) && keeps_spent(self.links, after.links)
    }
}

/// Whether removing something from a network left every spent handle spent, and spent the handles
/// of all that was removed, as long as no slot is worn.
pub open spec fn spends_removed(
    before: Issued,
    was: crate::graph::NetView,
    after: Issued,
    now: crate::graph::NetView,
) -> bool {
    &&& before.keeps_spent(after)
    &&& unworn(before.nodes) ==> forall|k: NodeId|
        was.nodes.contains_key(k) && !now.nodes.contains_key(k) ==> #[trigger] spent(
            after.nodes,
            k.spec_raw(),
        )
    &&& unworn(before.links) ==> forall|k: LinkId|
        was.links.contains_key(k) && !now.links.contains_key(k) ==> #[trigger] spent(
            after.links,
            k.spec_raw(),
        )
}

/// Giving out a handle gives out one that is not spent, and leaves every spent handle spent: a
/// newer node or link never gets the handle of one that was removed.
pub proof fn law_new_handles_are_not_spent_ones(before: Seq<u32>, raw: u64, after: Seq<u32>)
    requires
        crate::slots::handed_out(before, raw, after),
        before.len() > 0,
    ensures
        !spent(before, raw),
        crate::slots::is_current(after, raw),
        stays_spent(before, after),
{
}

/// A handle whose node or link is removed is spent from then on, and every spent handle stays
/// so, as long as no slot is worn.
pub proof fn law_removed_handles_are_spent(before: Seq<u32>, raw: u64, after: Seq<u32>)
    requires
        crate::slots::taken_back(before, raw, after),
        unworn(before),
    ensures
        spent(after, raw),
        unworn(after),
        forall|k: u64| spent(before, k) ==> #[trigger] spent(after, k),
{
    let slot = crate::slots::slot_of(raw);
    assert forall|i: int| 0 <= i < after.len() implies (#[trigger] after[i]) < u32::MAX by {
        if i != slot {
            assert(before[i] < u32::MAX);
        }
    }
}

/// A spent handle means nothing: what a handle means is there only while the handle has the
/// version of its slot.
pub proof fn law_spent_handles_mean_nothing(versions: Seq<u32>, raw: u64)
    requires
        spent(versions, raw),
    ensures
        !crate::slots::is_current(versions, raw),
{
}

} // verus!
