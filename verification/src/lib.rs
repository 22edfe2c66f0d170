//! # Emergence
//!
//! A hierarchical packet-routing network simulation: nodes nest inside other nodes, talk over
//! links, and route packets along explicit multi-hop paths.

pub mod abi;
pub mod activity;
pub mod answers;
pub mod assoc;
pub mod behaviour;
pub mod builder;
pub mod builtin;
pub mod catalogue;
pub mod checklist;
pub mod computer;
pub mod console;
pub mod console_laws;
pub mod delivery_laws;
pub mod faulty;
pub mod forms;
pub mod graph;
pub mod handles;
pub mod ids;
pub mod labels;
pub mod link_sets;
pub mod lists;
pub mod logic;
pub mod logic_laws;
pub mod monitor;
pub mod monitor_laws;
pub mod names;
pub mod network;
pub mod network_laws;
pub mod npc;
pub mod npc_events;
pub mod npc_laws;
pub mod packaging;
pub mod packaging_laws;
pub mod packet;
pub mod plan_laws;
pub mod probe;
pub mod probe_laws;
pub mod report;
pub mod report_laws;
pub mod route;
pub mod run;
pub mod sandbox_laws;
pub mod scenarios;
pub mod scene;
pub mod side_slots;
pub mod slots;
pub mod snapshot;
pub mod tally;
pub mod template_laws;
pub mod templates;
pub mod text;
pub mod text_laws;
pub mod tick_laws;
pub mod trace;
pub mod traffic_laws;
pub mod viewer;
pub mod world;
pub mod world_laws;

pub use crate::behaviour::{create_logic, Behaviour, LOGIC_KINDS};
pub use crate::builtin::{Beacon, Bridge, Gateway, Responder, Scanner};
pub use crate::computer::{AppKind, ComputerSpec, HardwareTag, Kernel, BASE_SERVICES};
pub use crate::ids::{LinkId, NodeId};
pub use crate::logic::{
    AcceptRule, Context, ControllerLogic, Limits, Relaying, SendError,
};
pub use crate::monitor::{Alert, Check, MonitorConfig, Severity, Subject, Threshold};
pub use crate::network::{ControlNode, Link, Network, NetworkError};
pub use crate::npc::{Npc, NpcRole, NpcSpec, NpcSpecProblem};
pub use crate::packet::{Event, Packet, PacketId};
pub use crate::route::{Hop, PacketRoute, RouteError};
pub use crate::templates::{
    build_computer, build_computer_at, build_npc, build_npc_at, or_remove, Placement,
    TemplateError, TEMPLATES,
};
pub use crate::trace::{DropReason, TraceEvent};
pub use crate::world::{
    FuseLimit, FuseReport, Health, LogicError, NodeStats, TickOutcome, World,
};
