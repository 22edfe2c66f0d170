//! Handles to nodes and links: keys of the slot maps that hold them.

use slotmap::KeyData;
use vstd::prelude::*;
use vstd::string::*;

use crate::text::decimal;

verus! {

/// A slot map key holds a slot index in its low half and a version in its high half.
pub const SLOT_SPAN: u64 = 0x1_0000_0000;

/// Whether an integer is a key's integer form: keys have odd versions.
pub open spec fn is_key(raw: u64) -> bool {
    as_key(raw) == raw
}

/// The integer form of the null key, which no slot map hands out.
pub open spec fn null_raw() -> u64 {
    0x1_ffff_ffffu64
}

/// Whether a key is null: its slot is the one that no slot map uses, whatever its version.
pub open spec fn is_null(raw: u64) -> bool {
    raw % SLOT_SPAN == 0xffff_ffff
}

/// A number that orders keys by slot index, then by version.
pub open spec fn key_rank(raw: u64) -> u64 {
    ((raw % SLOT_SPAN) * SLOT_SPAN + raw / SLOT_SPAN) as u64
}

/// Different keys have different ranks.
pub proof fn lemma_key_rank_injective(a: u64, b: u64)
    requires
        key_rank(a) == key_rank(b),
    ensures
        a == b,
{
    assert((a % SLOT_SPAN) * SLOT_SPAN + a / SLOT_SPAN <= u64::MAX);
    assert((b % SLOT_SPAN) * SLOT_SPAN + b / SLOT_SPAN <= u64::MAX);
}

/// `KeyData::from_ffi` and back through `KeyData::as_ffi`: the version half is made odd, and
/// nothing else changes.
#[verifier::external_body]
fn through_key(raw: u64) -> (r: u64)
    ensures
        r == as_key(raw),
{
    KeyData::from_ffi(raw).as_ffi()
}

/// `KeyData::default`: the null key, slot `u32::MAX` at version 1.
#[verifier::external_body]
fn null_key() -> (r: u64)
    ensures
        r == null_raw(),
{
    KeyData::default().as_ffi()
}

/// The number that orders a key by slot index, then by version.
fn rank_of(raw: u64) -> (r: u64)
    ensures
        r == key_rank(raw),
{
    (raw % SLOT_SPAN) * SLOT_SPAN + raw / SLOT_SPAN
}

/// The key that an integer is read as: the version half is made odd.
pub open spec fn as_key(raw: u64) -> u64 {
    raw | 0x1_0000_0000u64
}

/// The key that an integer is read as, as `slot`v`version`, or as `null`.
pub open spec fn key_text(raw: u64) -> Seq<char> {
    let key = as_key(raw);
    if is_null(key) {
        "null"@
    } else {
        crate::text::decimal_text((key % SLOT_SPAN) as nat) + "v"@ + crate::text::decimal_text(
            (key / SLOT_SPAN) as nat,
        )
    }
}

/// The key that an integer is read as, as `slot`v`version`, or as `null`.
fn key_to_text(raw: u64) -> (r: String)
    ensures
        r@ == key_text(raw),
{
    let key = through_key(raw);
    if key % SLOT_SPAN == 0xffff_ffff {
        return "null".to_owned();
    }
    let mut out = decimal(key % SLOT_SPAN);
    out.append("v");
    out.append(decimal(key / SLOT_SPAN).as_str());
    out
}

/// Handle to a [`ControlNode`](crate::network::ControlNode) in a [`Network`](crate::network::Network).
///
/// Cheap to copy. Kept in its integer form, that of a slot map key where a slot map handed it out.
/// A handle to a removed node never
/// aliases a newer node; see [`handles`](crate::handles).
#[derive(Clone, Copy, PartialEq, Eq, Structural, Hash, Debug)]
pub struct NodeId {
    pub(crate) raw: u64,
}

impl NodeId {
    #[verifier::type_invariant]
    spec fn is_never_zero(self) -> bool {
        self.raw != 0
    }

    /// The handle's integer form.
    pub closed spec fn spec_raw(self) -> u64 {
        self.raw
    }

    /// The handle's place in the order of handles: by slot, then by version.
    pub open spec fn rank(self) -> u64 {
        key_rank(self.spec_raw())
    }

    /// The handle as error messages show it.
    pub open spec fn text(self) -> Seq<char> {
        "NodeId("@ + key_text(self.spec_raw()) + ")"@
    }

    /// Converts the handle to a plain integer, for passing across an FFI boundary.
    ///
    /// Never returns 0, so hosts can use 0 to mean "no handle".
    pub fn to_raw(self) -> (r: u64)
        ensures
            r == self.spec_raw(),
            r != 0,
    {
        proof {
            use_type_invariant(&self);
        }
        self.raw
    }

    /// Rebuilds a handle from [`to_raw`](Self::to_raw).
    ///
    /// Any value is safe to pass: one that did not come from `to_raw` produces a handle that
    /// simply does not resolve to anything. Different values but 0, which produces the null
    /// handle, produce different handles.
    pub fn from_raw(raw: u64) -> (r: Self)
        ensures
            raw != 0 ==> r.spec_raw() == raw,
            raw == 0 ==> r.spec_raw() == null_raw(),
    {
        if raw == 0 {
            Self::default()
        } else {
            NodeId { raw }
        }
    }

    /// Whether the handle is a key. Those that slot maps hand out are.
    pub(crate) fn is_key(self) -> (r: bool)
        ensures
            r == is_key(self.spec_raw()),
    {
        through_key(self.raw) == self.raw
    }

    /// A number that orders handles by slot, then by version.
    pub fn to_rank(self) -> (r: u64)
        ensures
            r == self.rank(),
    {
        rank_of(self.raw)
    }

    /// The handle as error messages show it.
    pub fn to_text(self) -> (r: String)
        ensures
            r@ == self.text(),
    {
        let mut out = "NodeId(".to_owned();
        out.append(key_to_text(self.raw).as_str());
        out.append(")");
        out
    }
}

impl Default for NodeId {
    /// The null handle, which does not resolve to anything.
    fn default() -> (r: Self)
        ensures
            r.spec_raw() == null_raw(),
    {
        NodeId { raw: null_key() }
    }
}

/// Whether two handles share a slot.
pub open spec fn same_slot(a: NodeId, b: NodeId) -> bool {
    a.spec_raw() % SLOT_SPAN == b.spec_raw() % SLOT_SPAN
}

/// Handles with the same integer form are the same handle, so a handle survives the trip through
/// [`NodeId::to_raw`] and [`NodeId::from_raw`].
pub proof fn law_node_raw_round_trip(a: NodeId, b: NodeId)
    requires
        a.spec_raw() == b.spec_raw(),
    ensures
        a == b,
{
}

/// Different integers other than 0 are different handles, so [`NodeId::from_raw`] keeps them apart.
pub proof fn law_node_raws_are_kept_apart(a: u64, b: u64, x: NodeId, y: NodeId)
    requires
        a != 0,
        b != 0,
        x.spec_raw() == a,
        y.spec_raw() == b,
    ensures
        x == y <==> a == b,
{
}

/// Handles of the same rank are the same handle.
pub proof fn lemma_node_rank_injective(a: NodeId, b: NodeId)
    requires
        a.rank() == b.rank(),
    ensures
        a == b,
{
    lemma_key_rank_injective(a.raw, b.raw);
}

/// Handle to a [`Link`](crate::network::Link) in a [`Network`](crate::network::Network).
///
/// Cheap to copy. Kept in its integer form, that of a slot map key where a slot map handed it out.
/// A handle to a removed link never
/// aliases a newer link; see [`handles`](crate::handles).
#[derive(Clone, Copy, PartialEq, Eq, Structural, Hash, Debug)]
pub struct LinkId {
    pub(crate) raw: u64,
}

impl LinkId {
    #[verifier::type_invariant]
    spec fn is_never_zero(self) -> bool {
        self.raw != 0
    }

    /// The handle's integer form.
    pub closed spec fn spec_raw(self) -> u64 {
        self.raw
    }

    /// The handle's place in the order of handles: by slot, then by version.
    pub open spec fn rank(self) -> u64 {
        key_rank(self.spec_raw())
    }

    /// The handle as error messages show it.
    pub open spec fn text(self) -> Seq<char> {
        "LinkId("@ + key_text(self.spec_raw()) + ")"@
    }

    /// Converts the handle to a plain integer, for passing across an FFI boundary.
    ///
    /// Never returns 0, so hosts can use 0 to mean "no handle".
    pub fn to_raw(self) -> (r: u64)
        ensures
            r == self.spec_raw(),
            r != 0,
    {
        proof {
            use_type_invariant(&self);
        }
        self.raw
    }

    /// Rebuilds a handle from [`to_raw`](Self::to_raw).
    ///
    /// Any value is safe to pass: one that did not come from `to_raw` produces a handle that
    /// simply does not resolve to anything. Different values but 0, which produces the null
    /// handle, produce different handles.
    pub fn from_raw(raw: u64) -> (r: Self)
        ensures
            raw != 0 ==> r.spec_raw() == raw,
            raw == 0 ==> r.spec_raw() == null_raw(),
    {
        if raw == 0 {
            Self::default()
        } else {
            LinkId { raw }
        }
    }

    /// Whether the handle is a key. Those that slot maps hand out are.
    pub(crate) fn is_key(self) -> (r: bool)
        ensures
            r == is_key(self.spec_raw()),
    {
        through_key(self.raw) == self.raw
    }

    /// A number that orders handles by slot, then by version.
    pub fn to_rank(self) -> (r: u64)
        ensures
            r == self.rank(),
    {
        rank_of(self.raw)
    }

    /// The handle as error messages show it.
    pub fn to_text(self) -> (r: String)
        ensures
            r@ == self.text(),
    {
        let mut out = "LinkId(".to_owned();
        out.append(key_to_text(self.raw).as_str());
        out.append(")");
        out
    }
}

impl Default for LinkId {
    /// The null handle, which does not resolve to anything.
    fn default() -> (r: Self)
        ensures
            r.spec_raw() == null_raw(),
    {
        LinkId { raw: null_key() }
    }
}

/// Handles with the same integer form are the same handle, so a handle survives the trip through
/// [`LinkId::to_raw`] and [`LinkId::from_raw`].
pub proof fn law_link_raw_round_trip(a: LinkId, b: LinkId)
    requires
        a.spec_raw() == b.spec_raw(),
    ensures
        a == b,
{
}

/// Different integers other than 0 are different handles, so [`LinkId::from_raw`] keeps them apart.
pub proof fn law_link_raws_are_kept_apart(a: u64, b: u64, x: LinkId, y: LinkId)
    requires
        a != 0,
        b != 0,
        x.spec_raw() == a,
        y.spec_raw() == b,
    ensures
        x == y <==> a == b,
{
}

/// Handles of the same rank are the same handle.
pub proof fn lemma_link_rank_injective(a: LinkId, b: LinkId)
    requires
        a.rank() == b.rank(),
    ensures
        a == b,
{
    lemma_key_rank_injective(a.raw, b.raw);
}

} // verus!
