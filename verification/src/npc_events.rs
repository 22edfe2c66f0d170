//! Event kinds NPCs understand and send.

use vstd::prelude::*;

verus! {

/// Sent to an NPC to start or continue a conversation.
pub const TALK: &'static str = "talk";

/// An NPC's line of dialogue, sent back to whoever talked to it.
pub const SAY: &'static str = "say";

/// Sent to an NPC by the host when it sees the player. Detection itself is the host's job
/// (it is spatial); reacting to it is the NPC's.
pub const PLAYER_SEEN: &'static str = "player-seen";

/// Broadcast by a guard that has seen the player.
pub const ALARM: &'static str = "alarm";

/// Broadcast whenever an NPC's goal changes, so the host can move it.
pub const GOAL: &'static str = "goal";

} // verus!
