//! The stress tests: networks built to fail the way player-built networks might, with what each
//! one does and what should happen.

use vstd::prelude::*;
use vstd::string::*;

use crate::console::Entry;
use crate::scenarios::SCENARIOS;

verus! {

/// How many stress tests there are.
pub const STRESS_COUNT: usize = 29;

/// The stress tests: the group each is listed under, its name and its description.
pub const STRESS_TESTS: [(&'static str, &'static str, &'static str); 29] = [
    (
        "Healthy traffic",
        "Office runs clean",
        "300 ticks of the Office scenario: beacons, scanners through gateways, NPCs. No alerts, no fuse, no TTL drops.",
    ),
    (
        "Healthy traffic",
        "City block runs clean",
        "200 ticks of 345 nodes in 8 buildings with scanners on every LAN.",
    ),
    (
        "Healthy traffic",
        "Mesh runs clean",
        "300 ticks of 30 devices on 10 shared links with beacons.",
    ),
    (
        "Healthy traffic",
        "Big legitimate broadcast",
        "A host pings a hall of 400 guests five times; 2,000 pongs come back. Busy, but not a bug.",
    ),
    (
        "Loops",
        "Relay loop: two bridges",
        "Two bridges join the same two links. The loop is flagged from the topology before any traffic; the broadcast then circles until its TTL runs out.",
    ),
    (
        "Loops",
        "Broadcast storm: four bridges",
        "Four bridges on two links: every copy is copied three times per hop. Exponential growth must trip the fuse, stay within limits, and the report must name the loop.",
    ),
    (
        "Loops",
        "Loop across levels",
        "A player patches a cable from inside a computer to the Wi-Fi it is already on. The computer's gateway and the patch bridge form a loop between levels; it must be flagged and die out.",
    ),
    (
        "Loops",
        "Echo ping-pong",
        "Two nodes that answer everything with a copy of it. Every reply is a new packet, so the TTL never runs out: only the replay check can see it.",
    ),
    (
        "Replay & amplification",
        "Stuck retry",
        "A node re-sends the same packet four times a tick forever. The receiver's replay check must reach error.",
    ),
    (
        "Replay & amplification",
        "Amplifier",
        "One ping makes a node send 50; each of the three responders' pongs is amplified again. Amplification must be flagged and the runaway stopped by the fuse.",
    ),
    (
        "Replay & amplification",
        "Two amplifiers facing each other",
        "Each amplifies the other's output: 50× per hop. The fuse must trip within a few ticks.",
    ),
    (
        "Floods & limits",
        "Noisy node",
        "One node sends 1,000 broadcasts a tick. Heavy, but under the fuse: the rate checks must name it.",
    ),
    (
        "Floods & limits",
        "Firehose",
        "Six flooders together exceed the per-tick packet limit. The fuse must trip on transmissions and the queue stay bounded even when the host keeps ticking.",
    ),
    (
        "Floods & limits",
        "Fan-out bomb",
        "60 broadcasts into a stadium of 1,200 listeners is 72,000 deliveries in one tick. The fuse must trip on deliveries.",
    ),
    (
        "Floods & limits",
        "Host floods the queue",
        "The host queues 25,000 packets between two ticks. The first 20,000 are accepted, the rest refused with QueueFull, and the next tick trips the fuse.",
    ),
    (
        "Floods & limits",
        "Huge payloads",
        "A payload over 64 KiB is refused. A maximum-size payload broadcast to 1,000 listeners is shared, not copied 1,000 times, so it is quick.",
    ),
    (
        "Floods & limits",
        "Trace never drained",
        "A host that never reads the trace must not leak memory: the buffer stays capped and counts what it threw away.",
    ),
    (
        "Player edits",
        "Invalid names",
        "Empty names, reserved tokens and route syntax are refused for nodes and links.",
    ),
    (
        "Player edits",
        "Name clashes",
        "Every computer can have its own `registry`, but two `pc-1`s on one Wi-Fi, or two `ipc` buses in one computer, are refused.",
    ),
    (
        "Player edits",
        "Nesting mistakes",
        "Putting a node inside its own child, giving it two parents, or nesting the world are refused and change nothing.",
    ),
    (
        "Player edits",
        "Unplugged mid-flight",
        "A node queues 50 packets, then is unplugged before they go out. They are dropped, not delivered from a node that is no longer there.",
    ),
    (
        "Player edits",
        "Gateway loses its uplink",
        "A computer is unplugged from the Wi-Fi mid-run, then an app inside it tries to reach the laptop. The gateway notes it has no way out; nothing breaks.",
    ),
    (
        "Player edits",
        "Logic removed mid-storm",
        "A three-bridge storm is building; the player switches the bridges off. Traffic must die down without the fuse tripping.",
    ),
    (
        "Player edits",
        "Nested 2,000 deep",
        "Computers inside computers, 2,000 levels deep, with a scanner at the bottom. Building, ticking and snapshotting must not overflow the stack or stall.",
    ),
    (
        "Player edits",
        "20,000 nodes",
        "200 links of 100 devices each, with a beacon per link. 100 ticks must finish well inside the time budget.",
    ),
    (
        "Player edits",
        "Computer plugged into its own bus",
        "A computer subscribes to its own internal bus. It must hear each packet once, not twice, and not loop.",
    ),
    (
        "Player edits",
        "Odd addresses",
        "Addressing the parent from the top level, a node that does not exist, a route that is too deep, and `*@*`.",
    ),
    (
        "Robustness",
        "Crashing logic",
        "A node's logic panics on its first packet. It is removed and reported; the world keeps ticking and nothing crashes the host.",
    ),
    (
        "Robustness",
        "Deterministic",
        "The same network run twice produces exactly the same sequence of events, so any bug can be replayed.",
    ),
];

/// Whether `entry` lists the stress test at a place in [`STRESS_TESTS`].
pub open spec fn lists_test(entry: Entry, i: int) -> bool {
    &&& entry.group@ == STRESS_TESTS[i].0@
    &&& entry.name@ == STRESS_TESTS[i].1@
    &&& entry.description@ == STRESS_TESTS[i].2@
}

/// Whether `entry` lists the scenario at a place in [`SCENARIOS`].
pub open spec fn lists_scenario(entry: Entry, i: int) -> bool {
    &&& entry.group@.len() == 0
    &&& entry.name@ == SCENARIOS[i].0@
    &&& entry.description@ == SCENARIOS[i].1@
}

/// The stress tests, as they are listed.
pub fn stress_entries() -> (r: Vec<Entry>)
    ensures
        r@.len() == STRESS_COUNT,
        forall|i: int| 0 <= i < r@.len() ==> lists_test(#[trigger] r@[i], i),
{
    let mut out: Vec<Entry> = Vec::new();
    let mut i: usize = 0;
    while i < STRESS_COUNT
        invariant
            i <= STRESS_COUNT,
            out@.len() == i,
            forall|k: int| 0 <= k < i ==> lists_test(#[trigger] out@[k], k),
        decreases STRESS_COUNT - i,
    {
        let (group, name, description) = STRESS_TESTS[i];
        out.push(
            Entry {
                group: group.to_owned(),
                name: name.to_owned(),
                description: description.to_owned(),
            },
        );
        i += 1;
    }
    out
}

/// The scenarios, as they are listed.
pub fn scenario_entries() -> (r: Vec<Entry>)
    ensures
        r@.len() == 4,
        forall|i: int| 0 <= i < r@.len() ==> lists_scenario(#[trigger] r@[i], i),
{
    let mut out: Vec<Entry> = Vec::new();
    let mut i: usize = 0;
    while i < 4
        invariant
            i <= 4,
            out@.len() == i,
            forall|k: int| 0 <= k < i ==> lists_scenario(#[trigger] out@[k], k),
        decreases 4 - i,
    {
        let (name, description) = SCENARIOS[i];
        out.push(
            Entry {
                group: String::new(),
                name: name.to_owned(),
                description: description.to_owned(),
            },
        );
        i += 1;
    }
    out
}

} // verus!
