//! Packets: what travels through the network.

use vstd::prelude::*;
use vstd::string::*;

use crate::ids::NodeId;
use crate::lists::copied;
use crate::route::PacketRoute;
use crate::text::same_text;

verus! {

/// What an [`Event`] holds.
#[verifier::ext_equal]
pub struct EventView {
    pub kind: Seq<char>,
    pub data: Seq<u8>,
}

/// The payload of a packet: a kind that says what happened, plus opaque bytes.
///
/// The engine never looks inside `data`. Hosts choose their own encoding (JSON, a binary
/// struct, nothing at all).
#[derive(Debug, PartialEq, Eq, Hash)]
pub struct Event {
    /// What the event is, such as `"ping"`. Logic dispatches on this.
    pub kind: String,
    /// Event-specific payload.
    pub data: Vec<u8>,
}

impl View for Event {
    type V = EventView;

    open spec fn view(&self) -> EventView {
        EventView { kind: self.kind@, data: self.data@ }
    }
}

/// A copy of `bytes`.
pub fn copy_bytes(bytes: &[u8]) -> (r: Vec<u8>)
    ensures
        r@ == bytes@,
{
    let mut out: Vec<u8> = Vec::new();
    let mut i: usize = 0;
    while i < bytes.len()
        invariant
            i <= bytes.len(),
            out@ == bytes@.take(i as int),
        decreases bytes.len() - i,
    {
        out.push(bytes[i]);
        i += 1;
        assert(bytes@.take(i as int) =~= bytes@.take(i - 1).push(bytes@[i - 1]));
    }
    assert(bytes@.take(i as int) =~= bytes@);
    out
}

/// Whether the two hold the same bytes.
pub fn same_bytes(a: &[u8], b: &[u8]) -> (r: bool)
    ensures
        r == (a@ == b@),
{
    if a.len() != b.len() {
        return false;
    }
    let mut i: usize = 0;
    while i < a.len()
        invariant
            i <= a.len(),
            a.len() == b.len(),
            forall|j: int| 0 <= j < i ==> #[trigger] a@[j] == b@[j],
        decreases a.len() - i,
    {
        if a[i] != b[i] {
            return false;
        }
        i += 1;
    }
    assert(a@ =~= b@);
    true
}

/// The bytes of `text`, in UTF-8.
pub fn bytes_of(text: &str) -> (r: Vec<u8>)
    ensures
        r@ == text.spec_bytes(),
{
    copy_bytes(text.as_bytes())
}

impl Clone for Event {
    fn clone(&self) -> (r: Self)
        ensures
            r@ == self@,
    {
        Event { kind: self.kind.clone(), data: copy_bytes(self.data.as_slice()) }
    }
}

impl Event {
    /// An event with no payload.
    pub fn new(kind: &str) -> (r: Self)
        ensures
            r@ == (EventView { kind: kind@, data: Seq::empty() }),
    {
        Event { kind: kind.to_owned(), data: Vec::new() }
    }

    /// Whether the two events are identical.
    pub fn same_as(&self, other: &Self) -> (r: bool)
        ensures
            r == (self@ == other@),
    {
        same_text(self.kind.as_str(), other.kind.as_str()) && same_bytes(
            self.data.as_slice(),
            other.data.as_slice(),
        )
    }

    /// An event with a payload.
    pub fn with_data(kind: &str, data: Vec<u8>) -> (r: Self)
        ensures
            r@ == (EventView { kind: kind@, data: data@ }),
    {
        Event { kind: kind.to_owned(), data }
    }
}

/// Identifies one transmission of a packet onto a link. Every copy a link hands to its
/// listeners shares the ID; a forwarded packet gets a new one.
#[derive(Debug, Clone, Copy, PartialEq, Eq, Structural, Hash, PartialOrd, Ord)]
pub struct PacketId(pub(crate) u64);

impl PacketId {
    /// The ID's integer form.
    pub closed spec fn spec_raw(self) -> u64 {
        self.0
    }

    /// The ID whose integer form is `raw`.
    pub closed spec fn of(raw: u64) -> PacketId {
        PacketId(raw)
    }

    pub(crate) fn new(raw: u64) -> (r: Self)
        ensures
            r == Self::of(raw),
    {
        PacketId(raw)
    }

    /// The ID as a plain integer, for passing across an FFI boundary.
    pub fn to_raw(self) -> (r: u64)
        ensures
            r == self.spec_raw(),
    {
        self.0
    }
}

/// The packets a world numbers differently have different IDs, and an ID's integer form is the
/// number.
pub proof fn law_packet_ids_are_numbers(a: u64, b: u64)
    ensures
        PacketId::of(a).spec_raw() == a,
        PacketId::of(a) == PacketId::of(b) <==> a == b,
{
}

/// What a [`Packet`] holds.
#[verifier::ext_equal]
pub struct PacketView {
    pub id: PacketId,
    pub from: Seq<crate::route::HopView>,
    pub to: Seq<crate::route::HopView>,
    pub event: EventView,
    pub ttl: u8,
    pub trace: Seq<NodeId>,
}

/// Whether a hop budget and a trace agree: there are hops left, and every hop used is in the trace.
pub open spec fn budgeted(ttl: u8, trace: Seq<NodeId>) -> bool {
    1 <= ttl && ttl + trace.len() == Packet::DEFAULT_TTL
}

/// A message travelling through the network.
#[derive(Debug, PartialEq, Eq)]
pub struct Packet {
    pub(crate) id: PacketId,
    pub(crate) from: PacketRoute,
    pub(crate) to: PacketRoute,
    pub(crate) event: Event,
    pub(crate) ttl: u8,
    pub(crate) trace: Vec<NodeId>,
}

impl View for Packet {
    type V = PacketView;

    closed spec fn view(&self) -> PacketView {
        PacketView {
            id: self.id,
            from: self.from@,
            to: self.to@,
            event: self.event@,
            ttl: self.ttl,
            trace: self.trace@,
        }
    }
}

impl Clone for Packet {
    fn clone(&self) -> (r: Self)
        ensures
            r@ == self@,
    {
        proof {
            use_type_invariant(self);
        }
        Packet {
            id: self.id,
            from: self.from.clone(),
            to: self.to.clone(),
            event: self.event.clone(),
            ttl: self.ttl,
            trace: copied(self.trace.as_slice()),
        }
    }
}

impl Packet {
    /// Hop budget a fresh packet starts with.
    pub const DEFAULT_TTL: u8 = 16;

    #[verifier::type_invariant]
    spec fn on_budget(self) -> bool {
        budgeted(self.ttl, self.trace@)
    }

    pub(crate) fn new(
        id: PacketId,
        from: PacketRoute,
        to: PacketRoute,
        event: Event,
        ttl: u8,
        trace: Vec<NodeId>,
    ) -> (r: Self)
        requires
            budgeted(ttl, trace@),
        ensures
            r@ == (PacketView {
                id,
                from: from@,
                to: to@,
                event: event@,
                ttl,
                trace: trace@,
            }),
    {
        Packet { id, from, to, event, ttl, trace }
    }

    /// The copy of this packet that `listener` gets: one hop used up, one more node in its trace.
    pub(crate) fn copy_for(&self, listener: NodeId) -> (r: Self)
        requires
            self@.ttl > 1,
        ensures
            r@ == self@.copied_for(listener),
    {
        proof {
            use_type_invariant(self);
        }
        let mut trace = copied(self.trace.as_slice());
        trace.push(listener);
        Packet {
            id: self.id,
            from: self.from.clone(),
            to: self.to.clone(),
            event: self.event.clone(),
            ttl: self.ttl - 1,
            trace,
        }
    }

    /// This transmission's ID.
    pub fn id(&self) -> (r: PacketId)
        ensures
            r == self@.id,
    {
        self.id
    }

    /// The sender's address, for replying.
    pub fn from(&self) -> (r: &PacketRoute)
        ensures
            r@ == self@.from,
    {
        &self.from
    }

    /// The destination address.
    pub fn to(&self) -> (r: &PacketRoute)
        ensures
            r@ == self@.to,
    {
        &self.to
    }

    /// The payload.
    pub fn event(&self) -> (r: &Event)
        ensures
            r@ == self@.event,
    {
        &self.event
    }

    /// Hops left before the packet is dropped.
    pub fn ttl(&self) -> (r: u8)
        ensures
            r == self@.ttl,
            budgeted(self@.ttl, self@.trace),
    {
        proof {
            use_type_invariant(self);
        }
        self.ttl
    }

    /// Every node that has accepted this packet (or its forwarded ancestors), oldest first.
    pub fn trace(&self) -> (r: &[NodeId])
        ensures
            r@ == self@.trace,
    {
        self.trace.as_slice()
    }
}

impl PacketView {
    /// The copy of the packet that `listener` gets: one hop used up, one more node in its trace.
    pub open spec fn copied_for(self, listener: NodeId) -> PacketView {
        PacketView {
            ttl: if self.ttl > 0 {
                (self.ttl - 1) as u8
            } else {
                0
            },
            trace: self.trace.push(listener),
            ..self
        }
    }
}

} // verus!
