//! Reserved node and link names with special meaning in routes.

use vstd::prelude::*;

verus! {

/// Name of the network's root node.
pub const ROOT: &'static str = ".";

/// As a destination node: "my parent", resolved structurally by whoever owns the link.
pub const PARENT: &'static str = "^";

/// As a destination node or link: everyone.
pub const BROADCAST: &'static str = "*";

/// As a link: "whichever link this arrives on".
pub const ANY_LINK: &'static str = "?";

/// Conventional name of a composite node's own internal bus.
pub const IPC: &'static str = "ipc";

} // verus!
