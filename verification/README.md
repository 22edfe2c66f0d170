# Emergence

A hierarchical packet-routing network simulation. Nodes nest inside other nodes, talk over shared
links, and route packets along explicit multi-hop paths. Logic attached to nodes reacts to the
clock and to packets; a monitor watches for loops, replays, amplification and floods, and a fuse
stops a tick that gets out of hand.

| Path | Purpose |
|---|---|
| `src/` | The library, verified with Verus: every function says what it returns or changes. |
| `tests/` | What the library does on concrete networks. |
| `app/` | The programs around it: the C ABI, the desktop sandbox and the build tasks. |

## The library

- **Networks**: `ids`, `handles`, `slots`, `side_slots`, `lists`, `graph`, `network`, `names`.
- **Packets**: `route`, `packet`, `trace`, `text`.
- **Logic**: `logic`, `builtin`, `faulty`, `behaviour`, `link_sets`.
- **Worlds**: `world`, `monitor`, `tally`, `assoc`, with what always holds of them in `world_laws`
  and `monitor_laws`.
- **Templates**: `computer`, `npc`, `npc_events`, `templates`.
- **Hosts**: `abi`, `report`, `snapshot`.
- **The sandbox**: `scenarios`, `builder`, `catalogue`, `probe`, `run`, `checklist`, `activity`,
  `scene`, `viewer`, `labels`, `forms`, `console`, `answers`.
- **Packages**: `packaging`.

What holds of all inputs, or of several calls together, is stated and proved in the functions
named `law_…`.

What the slot maps of the `slotmap` crate do, and a handful of functions of the standard library,
is taken on trust: see the doc comments in `ids`, `slots`, `side_slots`, `text`, `report` and
`console`.
