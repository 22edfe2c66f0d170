//! Short texts and choices for drawing: stable colours, load levels and captions.

use vstd::prelude::*;
use vstd::string::*;

use crate::report::HealthReport;
use crate::snapshot::Snapshot;
use crate::text::{chars_of, decimal, joined, slice_of, text_of};

verus! {

/// How many colours there are to choose from.
pub const PALETTE_SIZE: u64 = 10;

/// Where the hash starts.
pub const HASH_OFFSET: u64 = 0xcbf2_9ce4_8422_2325;

/// What the hash multiplies by for each byte.
pub const HASH_PRIME: u64 = 0x0100_0000_01b3;

/// What tells a node kind's colour from that of a link of the same name.
pub const KIND_SALT: u64 = 0x9E37_79B9;

/// FNV-1a of the bytes.
pub open spec fn hashed(bytes: Seq<u8>) -> u64
    decreases bytes.len(),
{
    if bytes.len() == 0 {
        HASH_OFFSET
    } else {
        (hashed(bytes.drop_last()) ^ (bytes.last() as u64)).wrapping_mul(HASH_PRIME)
    }
}

/// FNV-1a: a stable hash, so a name always gets the same colour across runs.
pub fn hash(s: &str) -> (r: u64)
    ensures
        r == hashed(s.spec_bytes()),
{
    let bytes = s.as_bytes();
    let mut h: u64 = HASH_OFFSET;
    let mut i: usize = 0;
    assert(bytes@.take(0) =~= Seq::<u8>::empty());
    while i < bytes.len()
        invariant
            i <= bytes.len(),
            h == hashed(bytes@.take(i as int)),
        decreases bytes.len() - i,
    {
        h = (h ^ (bytes[i] as u64)).wrapping_mul(HASH_PRIME);
        i += 1;
        assert(bytes@.take(i as int).drop_last() =~= bytes@.take(i - 1));
    }
    assert(bytes@.take(i as int) =~= bytes@);
    h
}

/// Which colour a text gets; the same text gets another one with another salt.
pub fn pick(s: &str, salt: u64) -> (r: usize)
    ensures
        r == (hashed(s.spec_bytes()) ^ salt) % PALETTE_SIZE,
        r < PALETTE_SIZE,
{
    ((hash(s) ^ salt) % PALETTE_SIZE) as usize
}

/// Which colour a link gets, by name, so the same link looks the same everywhere.
pub fn link_color(name: &str) -> (r: usize)
    ensures
        r == (hashed(name.spec_bytes()) ^ 0) % PALETTE_SIZE,
        r < PALETTE_SIZE,
{
    pick(name, 0)
}

/// Which accent colour a node kind gets.
pub fn kind_color(kind: &str) -> (r: usize)
    ensures
        r == (hashed(kind.spec_bytes()) ^ KIND_SALT) % PALETTE_SIZE,
        r < PALETTE_SIZE,
{
    pick(kind, KIND_SALT)
}

/// How near the load is to the fuse.
#[derive(Debug, Clone, Copy, PartialEq, Eq, Structural)]
pub enum LoadLevel {
    /// Below a tenth of the limit.
    Calm,
    /// From a tenth of the limit.
    Busy,
    /// From half the limit.
    Critical,
}

/// How near `load` is to a limit of `max`, which counts as at least one.
pub fn load_level(load: u64, max: u64) -> (r: LoadLevel)
    ensures
        ({
            let limit: int = if max == 0 {
                1
            } else {
                max as int
            };
            r == (if load * 2 >= limit {
                LoadLevel::Critical
            } else if load * 10 >= limit {
                LoadLevel::Busy
            } else {
                LoadLevel::Calm
            })
        }),
{
    let limit: u128 = if max == 0 {
        1
    } else {
        max as u128
    };
    let load: u128 = load as u128;
    if load * 2 >= limit {
        LoadLevel::Critical
    } else if load * 10 >= limit {
        LoadLevel::Busy
    } else {
        LoadLevel::Calm
    }
}

/// `s`, or as much of it as fits in `max` characters with an ellipsis.
pub open spec fn shortened(s: Seq<char>, max: int) -> Seq<char> {
    if s.len() <= max {
        s
    } else {
        s.take(max - 1).push('…')
    }
}

/// `s`, or as much of it as fits in `max` characters with an ellipsis.
pub fn truncate(s: &str, max: usize) -> (r: String)
    requires
        max > 0,
    ensures
        r@ == shortened(s@, max as int),
{
    let chars = chars_of(s);
    if chars.len() <= max {
        s.to_owned()
    } else {
        let front = slice_of(&chars, 0, max - 1);
        assert(front@ =~= s@.take(max - 1));
        let mut out = text_of(&front);
        out.push('…');
        out
    }
}

/// A node's caption: its kind, and its logic if it has any.
pub fn node_caption(kind: &str, logic: &Option<String>) -> (r: String)
    ensures
        r@ == (match *logic {
            Some(l) => kind@ + " · "@ + l@,
            None => kind@,
        }),
{
    let mut out = kind.to_owned();
    if let Some(l) = logic {
        out.append(" · ");
        out.append(l.as_str());
    }
    out
}

/// What the load indicator explains.
pub open spec fn load_hint_text(h: HealthReport) -> Seq<char> {
    let max: u64 = if h.limits.max_transmissions_per_tick == 0 {
        1
    } else {
        h.limits.max_transmissions_per_tick
    };
    "Packets sent last tick. The fuse trips at "@ + crate::text::decimal_text(max as nat)
        + " sent or "@ + crate::text::decimal_text(h.limits.max_deliveries_per_tick as nat)
        + " delivered per tick.\nQueued: "@ + crate::text::decimal_text(h.pending as nat) + " / "@
        + crate::text::decimal_text(h.limits.max_pending as nat) + "  (refused so far: "@
        + crate::text::decimal_text(h.refused_sends as nat) + ")\nPeak: "@
        + crate::text::decimal_text(h.peak_transmissions as nat) + " per tick\nTTL drops: "@
        + crate::text::decimal_text(h.ttl_drops as nat) + "  ·  unplugged drops: "@
        + crate::text::decimal_text(h.sender_left_drops as nat) + "\nFuse trips: "@
        + crate::text::decimal_text(h.fuse_trips as nat) + "\nTrace buffer: "@
        + crate::text::decimal_text(h.trace_len as nat) + " (lost "@ + crate::text::decimal_text(
        h.trace_discarded as nat,
    ) + ")"@
}

/// What the load indicator explains.
pub fn load_hint(h: &HealthReport) -> (r: String)
    ensures
        r@ == load_hint_text(*h),
{
    let max: u64 = if h.limits.max_transmissions_per_tick == 0 {
        1
    } else {
        h.limits.max_transmissions_per_tick
    };
    let mut out = "Packets sent last tick. The fuse trips at ".to_owned();
    out.append(decimal(max).as_str());
    out.append(" sent or ");
    out.append(decimal(h.limits.max_deliveries_per_tick).as_str());
    out.append(" delivered per tick.\nQueued: ");
    out.append(decimal(h.pending).as_str());
    out.append(" / ");
    out.append(decimal(h.limits.max_pending).as_str());
    out.append("  (refused so far: ");
    out.append(decimal(h.refused_sends).as_str());
    out.append(")\nPeak: ");
    out.append(decimal(h.peak_transmissions).as_str());
    out.append(" per tick\nTTL drops: ");
    out.append(decimal(h.ttl_drops).as_str());
    out.append("  ·  unplugged drops: ");
    out.append(decimal(h.sender_left_drops).as_str());
    out.append("\nFuse trips: ");
    out.append(decimal(h.fuse_trips).as_str());
    out.append("\nTrace buffer: ");
    out.append(decimal(h.trace_len).as_str());
    out.append(" (lost ");
    out.append(decimal(h.trace_discarded).as_str());
    out.append(")");
    out
}

/// A link's caption. An arrow marks one that belongs outside the level being shown.
pub fn link_caption(name: &str, outer: bool) -> (r: String)
    ensures
        r@ == (if outer {
            "↗ "@ + name@
        } else {
            name@
        }),
{
    if outer {
        joined("↗ ", name)
    } else {
        name.to_owned()
    }
}

/// A node's traffic counters, if it had any traffic.
pub fn traffic_caption(sent: u64, received: u64) -> (r: Option<String>)
    ensures
        match r {
            Some(text) => (sent > 0 || received > 0) && text@ == "↑"@ + crate::text::decimal_text(
                sent as nat,
            ) + " ↓"@ + crate::text::decimal_text(received as nat),
            None => sent == 0 && received == 0,
        },
{
    if sent == 0 && received == 0 {
        return None;
    }
    let mut out = joined("↑", decimal(sent).as_str());
    out.append(" ↓");
    out.append(decimal(received).as_str());
    Some(out)
}

/// Deepest level the hierarchy tree draws. Networks can be nested thousands deep; drawing every
/// level recursively would overflow the stack, and nobody reads a tree that deep anyway.
pub const MAX_TREE_DEPTH: usize = 40;

/// A row of the hierarchy tree.
#[derive(Debug)]
pub enum TreeRow {
    /// Stands for a node and all that is nested in it, because it is too deep to draw.
    Cut(String),
    /// A node with nothing inside.
    Leaf,
    /// A node that can be opened.
    Branch,
}

/// What a cut row says.
pub open spec fn cut_text(snap: crate::snapshot::SnapView, id: u64, name: Seq<char>) -> Seq<char> {
    let hidden = crate::snapshot::at_most(1 + snap.nested(id, snap.nodes.len()));
    "⋯ "@ + crate::text::decimal_text(hidden as nat) + " more nested nodes (open "@ + name
        + " on the canvas)"@
}

/// The row for a node at some depth of the tree, if there is such a node.
pub fn tree_row(snap: &Snapshot, id: u64, depth: usize) -> (r: Option<TreeRow>)
    ensures
        match snap@.node(id) {
            None => r is None,
            Some(node) => if depth >= MAX_TREE_DEPTH {
                r matches Some(TreeRow::Cut(text)) && text@ == cut_text(snap@, id, node.name@)
            } else if node.children@.len() == 0 && node.internal_links@.len() == 0 {
                r == Some(TreeRow::Leaf)
            } else {
                r == Some(TreeRow::Branch)
            },
        },
{
    let node = match snap.node(id) {
        Some(node) => node,
        None => return None,
    };
    if depth >= MAX_TREE_DEPTH {
        let nested: usize = snap.descendant_count(id);
        let hidden: usize = if nested == usize::MAX {
            nested
        } else {
            nested + 1
        };
        let mut out = "⋯ ".to_owned();
        out.append(decimal(hidden as u64).as_str());
        out.append(" more nested nodes (open ");
        out.append(node.name.as_str());
        out.append(" on the canvas)");
        return Some(TreeRow::Cut(out));
    }
    if node.children.len() == 0 && node.internal_links.len() == 0 {
        Some(TreeRow::Leaf)
    } else {
        Some(TreeRow::Branch)
    }
}

} // verus!
