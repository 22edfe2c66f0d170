//! Pre-built composite nodes: one builder function per kind of thing (a computer, an NPC), each
//! with its own parameters, each returning a complete, wired-up, detached subtree for the caller to
//! connect wherever it belongs.
//!
//! - **Encapsulated**: callers get the root node and use it like any other node. What is inside
//!   can grow without breaking them.
//! - **A fixed catalogue**: the apps a computer can have ([`AppKind`]) are defined here, not
//!   registered from outside. Adding one means adding it to this crate.
//! - **Pure simulation**: no placement, rendering or engine types. Where a built node lives in a
//!   game world is the host's business.
//! - **All or nothing**: every step either succeeds or leaves the world as it was. `build_*`
//!   creates a detached subtree; connecting it is a separate step, so if that fails the node
//!   stays built but unattached. `build_*_at` does both as one step, so if the connection fails
//!   the node is removed again.

use vstd::prelude::*;
use vstd::string::*;

use crate::behaviour::Behaviour;
use crate::builtin::{Responder, Scanner};
use crate::computer::{AppKind, ComputerSpec, HardwareTag, Kernel};
use crate::ids::{LinkId, NodeId};
use crate::names;
use crate::network::{Network, NetworkError};
use crate::npc::{Npc, NpcSpec, NpcSpecProblem};
use crate::text::same_text;
use crate::world::{LogicError, World};

verus! {

/// Where a one-step build (`build_*_at`) attaches the new node.
#[derive(Debug, Clone, Copy, PartialEq, Eq, Structural)]
pub struct Placement {
    /// The node to nest it in.
    pub parent: NodeId,
    /// A link owned by (or about to be owned by) `parent` to attach it to, if any.
    pub link: Option<LinkId>,
}

/// Names of the templates, with what they build, for hosts that pick one at runtime.
pub const TEMPLATES: [(&'static str, &'static str); 2] = [
    ("computer", "A computer: kernel, system services and installed apps on its own bus."),
    ("npc", "A non-player character with a schedule, dialogue and a reaction to the player."),
];

/// Names of the logic kinds the templates provide, accepted by [`create_logic`].
pub const LOGIC_KINDS: [&'static str; 2] = ["kernel", "npc"];

/// The templates' own logic of that name, with default settings; nothing if the name is unknown.
pub open spec fn template_logic(kind: Seq<char>) -> Option<crate::behaviour::BehaviourView> {
    if kind == Kernel::KIND@ {
        Some(
            crate::behaviour::BehaviourView::Kernel(crate::computer::KernelView { promiscuous: false, sniffed: 0 }),
        )
    } else if kind == Npc::KIND@ {
        Some(
            crate::behaviour::BehaviourView::Npc(
                crate::npc::NpcView {
                    spec: crate::npc::NpcSpecView::ordinary(),
                    goal: None,
                    next_line: 0,
                },
            ),
        )
    } else {
        None
    }
}

/// Creates one of the templates' own logics with default settings, or `None` if the name is
/// unknown.
pub fn create_logic(kind: &str) -> (r: Option<Behaviour>)
    ensures
        match r {
            Some(b) => template_logic(kind@) == Some(b@),
            None => template_logic(kind@) is None,
        },
{
    if same_text(kind, Kernel::KIND) {
        Some(Behaviour::Kernel(Kernel::default()))
    } else if same_text(kind, Npc::KIND) {
        Some(Behaviour::Npc(Npc::new(NpcSpec::default())))
    } else {
        None
    }
}


/// What a [`TemplateError`] says.
#[verifier::ext_equal]
pub enum TemplateErrorView {
    AppInstalledTwice(AppKind),
    NameUsedInside(Seq<char>),
    Npc(NpcSpecProblem),
    Network(NetworkError),
    Logic(crate::world::LogicErrorView),
}

/// Why a template could not be built. Exhaustive: a `match` must handle every case, and a new
/// case is a compile error for callers until they handle it.
#[derive(Debug, PartialEq, Eq)]
#[allow(inconsistent_fields)]
pub enum TemplateError {
    /// An app appears more than once in [`ComputerSpec::apps`].
    AppInstalledTwice(AppKind),
    /// The computer's name is also the name of something inside it (a service or an app).
    NameUsedInside(String),
    /// The [`NpcSpec`] does not make sense.
    Npc(NpcSpecProblem),
    /// The network refused a node, link or connection: an invalid name, a name clash, a
    /// parent or link that does not exist, and so on.
    Network(NetworkError),
    /// Logic could not be attached.
    Logic(LogicError),
}

impl View for TemplateError {
    type V = TemplateErrorView;

    open spec fn view(&self) -> TemplateErrorView {
        match *self {
            TemplateError::AppInstalledTwice(app) => TemplateErrorView::AppInstalledTwice(app),
            TemplateError::NameUsedInside(name) => TemplateErrorView::NameUsedInside(name@),
            TemplateError::Npc(problem) => TemplateErrorView::Npc(problem),
            TemplateError::Network(e) => TemplateErrorView::Network(e),
            TemplateError::Logic(e) => TemplateErrorView::Logic(e@),
        }
    }
}

impl Clone for TemplateError {
    fn clone(&self) -> (r: Self)
        ensures
            r@ == self@,
    {
        match self {
            TemplateError::AppInstalledTwice(app) => TemplateError::AppInstalledTwice(*app),
            TemplateError::NameUsedInside(name) => TemplateError::NameUsedInside(name.clone()),
            TemplateError::Npc(problem) => TemplateError::Npc(*problem),
            TemplateError::Network(e) => TemplateError::Network(*e),
            TemplateError::Logic(e) => TemplateError::Logic(e.clone()),
        }
    }
}

impl TemplateErrorView {
    /// The problem in words.
    pub open spec fn text(self) -> Seq<char> {
        match self {
            TemplateErrorView::AppInstalledTwice(app) => "`"@ + app.text()
                + "` is installed twice"@,
            TemplateErrorView::NameUsedInside(name) => "a computer cannot be called `"@ + name
                + "`: that is the name of something inside it"@,
            TemplateErrorView::Npc(problem) => "invalid NPC: "@ + problem.text(),
            TemplateErrorView::Network(e) => e.text(),
            TemplateErrorView::Logic(e) => e.text(),
        }
    }
}

impl TemplateError {
    /// The problem in words, for people.
    pub fn to_string(&self) -> (r: String)
        ensures
            r@ == self@.text(),
    {
        match self {
            TemplateError::AppInstalledTwice(app) => {
                let mut out = "`".to_owned();
                out.append(app.name());
                out.append("` is installed twice");
                out
            },
            TemplateError::NameUsedInside(name) => {
                let mut out = "a computer cannot be called `".to_owned();
                out.append(name.as_str());
                out.append("`: that is the name of something inside it");
                out
            },
            TemplateError::Npc(problem) => {
                let mut out = "invalid NPC: ".to_owned();
                out.append(problem.to_string().as_str());
                out
            },
            TemplateError::Network(e) => e.to_string(),
            TemplateError::Logic(e) => e.to_string(),
        }
    }
}

impl From<NetworkError> for TemplateError {
    fn from(e: NetworkError) -> (r: Self) {
        TemplateError::Network(e)
    }
}

impl vstd::std_specs::convert::FromSpecImpl<NetworkError> for TemplateError {
    open spec fn obeys_from_spec() -> bool {
        true
    }

    open spec fn from_spec(e: NetworkError) -> Self {
        TemplateError::Network(e)
    }
}

impl From<LogicError> for TemplateError {
    fn from(e: LogicError) -> (r: Self) {
        TemplateError::Logic(e)
    }
}

impl vstd::std_specs::convert::FromSpecImpl<LogicError> for TemplateError {
    open spec fn obeys_from_spec() -> bool {
        true
    }

    open spec fn from_spec(e: LogicError) -> Self {
        TemplateError::Logic(e)
    }
}

impl NpcSpec {
    /// Checks that the spec makes sense.
    ///
    /// # Errors
    ///
    /// Fails with the first thing that is wrong with it.
    pub fn validate(&self) -> (r: Result<(), TemplateError>)
        ensures
            match r {
                Ok(_) => self@.problem() is None,
                Err(e) => self@.problem() matches Some(p) && e@ == TemplateErrorView::Npc(p),
            },
    {
        match self.problem() {
            Some(problem) => Err(TemplateError::Npc(problem)),
            None => Ok(()),
        }
    }
}

impl AppKind {
    /// The logic this app runs. Apps' own puzzle logic is not modelled; they answer pings, and
    /// the network scanner scans.
    pub open spec fn runs(self) -> crate::behaviour::BehaviourView {
        if self == AppKind::NetScan {
            crate::behaviour::BehaviourView::Scanner(40)
        } else {
            crate::behaviour::BehaviourView::Responder
        }
    }

    /// The logic this app runs.
    fn logic(self) -> (r: Behaviour)
        ensures
            r@ == self.runs(),
    {
        match self {
            AppKind::NetScan => Behaviour::Scanner(Scanner { interval: 40 }),
            _ => Behaviour::Responder(Responder),
        }
    }
}

/// How many services every computer has.
pub const SERVICES: usize = 5;

/// The names of everything inside a computer, in the order it is built.
pub open spec fn part_names(apps: Seq<AppKind>) -> Seq<Seq<char>> {
    crate::computer::service_names() + apps.map_values(|app: AppKind| app.text())
}

/// What kind of node the `i`th thing inside a computer is.
pub open spec fn part_kind(i: int) -> Seq<char> {
    if i < SERVICES {
        "service"@
    } else {
        "app"@
    }
}

/// The logic of the `i`th thing inside a computer.
pub open spec fn part_logic(apps: Seq<AppKind>, i: int) -> crate::behaviour::BehaviourView {
    if i < SERVICES {
        crate::behaviour::BehaviourView::Responder
    } else {
        apps[i - SERVICES].runs()
    }
}

/// The first app that is listed a second time.
pub open spec fn first_repeat(apps: Seq<AppKind>) -> Option<AppKind>
    decreases apps.len(),
{
    if apps.len() == 0 {
        None
    } else {
        match first_repeat(apps.drop_last()) {
            Some(app) => Some(app),
            None => if apps.drop_last().contains(apps.last()) {
                Some(apps.last())
            } else {
                None
            },
        }
    }
}

/// Why a computer of that name and with those apps cannot be built, if it cannot.
pub open spec fn computer_error(name: Seq<char>, apps: Seq<AppKind>) -> Option<TemplateErrorView> {
    if !crate::graph::valid_name(name) {
        Some(TemplateErrorView::Network(NetworkError::InvalidName))
    } else if part_names(apps).contains(name) {
        Some(TemplateErrorView::NameUsedInside(name))
    } else {
        match first_repeat(apps) {
            Some(app) => Some(TemplateErrorView::AppInstalledTwice(app)),
            None => None,
        }
    }
}

/// A network with a detached composite node in it: `root`, which owns the link `bus`, with the
/// `parts` inside it, all on that link.
pub open spec fn with_composite(
    v: crate::graph::NetView,
    root: NodeId,
    name: Seq<char>,
    bus: LinkId,
    parts: Seq<NodeId>,
    names: Seq<Seq<char>>,
) -> crate::graph::NetView {
    crate::graph::NetView {
        nodes: Map::new(
            |n: NodeId| v.nodes.contains_key(n) || n == root || parts.contains(n),
            |n: NodeId|
                if v.nodes.contains_key(n) {
                    v.nodes[n]
                } else if n == root {
                    crate::graph::NodeView {
                        name,
                        kind: "computer"@,
                        parent: None,
                        children: parts,
                        internal_links: seq![bus],
                        subscriptions: Seq::empty(),
                    }
                } else {
                    crate::graph::NodeView {
                        name: names[parts.index_of(n)],
                        kind: part_kind(parts.index_of(n)),
                        parent: Some(root),
                        children: Seq::empty(),
                        internal_links: Seq::empty(),
                        subscriptions: seq![bus],
                    }
                },
        ),
        links: v.links.insert(
            bus,
            crate::graph::LinkView {
                name: crate::names::IPC@,
                owner: Some(root),
                subscribers: parts,
            },
        ),
        root: v.root,
        node_order: v.node_order.push(root) + parts,
        link_order: v.link_order.push(bus),
    }
}

/// Whether the handles of a composite node are new to the network and different from each other.
pub open spec fn all_new(
    v: crate::graph::NetView,
    root: NodeId,
    bus: LinkId,
    parts: Seq<NodeId>,
) -> bool {
    &&& !v.nodes.contains_key(root)
    &&& !v.links.contains_key(bus)
    &&& parts.no_duplicates()
    &&& !parts.contains(root)
    &&& forall|i: int| 0 <= i < parts.len() ==> !v.nodes.contains_key(#[trigger] parts[i])
}

/// Whether a handle is in no slot that a node of the network is in.
pub open spec fn own_slot(v: crate::graph::NetView, id: NodeId) -> bool {
    forall|k: NodeId| #[trigger] v.nodes.contains_key(k) ==> !crate::ids::same_slot(k, id)
}

/// Whether the handles of a composite node are in no slot that a node of the network is in.
pub open spec fn own_slots(v: crate::graph::NetView, root: NodeId, parts: Seq<NodeId>) -> bool {
    &&& own_slot(v, root)
    &&& forall|i: int| 0 <= i < parts.len() ==> own_slot(v, #[trigger] parts[i])
}

/// Whether the handles of a composite node are in different slots.
pub open spec fn slots_differ(root: NodeId, parts: Seq<NodeId>) -> bool {
    &&& forall|i: int|
        0 <= i < parts.len() ==> !crate::ids::same_slot(#[trigger] parts[i], root)
    &&& forall|i: int, j: int|
        0 <= i < j < parts.len() ==> !crate::ids::same_slot(
            #[trigger] parts[i],
            #[trigger] parts[j],
        )
}

/// The logics with those of the first parts of a computer attached.
pub open spec fn with_part_logics(
    logics: Map<NodeId, crate::behaviour::BehaviourView>,
    parts: Seq<NodeId>,
    apps: Seq<AppKind>,
) -> Map<NodeId, crate::behaviour::BehaviourView>
    decreases parts.len(),
{
    if parts.len() == 0 {
        logics
    } else {
        crate::side_slots::entered(
            with_part_logics(logics, parts.drop_last(), apps),
            parts.last(),
            part_logic(apps, parts.len() - 1),
        )
    }
}

/// The world with a detached computer in it.
pub open spec fn with_computer(
    w: crate::world::WorldView,
    root: NodeId,
    name: Seq<char>,
    bus: LinkId,
    parts: Seq<NodeId>,
    apps: Seq<AppKind>,
    promiscuous: bool,
) -> crate::world::WorldView {
    crate::world::WorldView {
        network: with_composite(w.network, root, name, bus, parts, part_names(apps)),
        logics: crate::side_slots::entered(
            with_part_logics(w.logics, parts, apps),
            root,
            crate::behaviour::BehaviourView::Kernel(
                crate::computer::KernelView { promiscuous, sniffed: 0 },
            ),
        ),
        topology_changed: true,
        ..w
    }
}

/// Whether a computer's handles are ones that were not given out before.
pub open spec fn all_new_to(
    issued: crate::handles::Issued,
    root: NodeId,
    bus: LinkId,
    parts: Seq<NodeId>,
) -> bool {
    &&& crate::handles::is_new_to(issued.nodes, root.spec_raw())
    &&& crate::handles::is_new_to(issued.links, bus.spec_raw())
    &&& forall|i: int|
        0 <= i < parts.len() ==> crate::handles::is_new_to(
            issued.nodes,
            (#[trigger] parts[i]).spec_raw(),
        )
}

/// Whether `after` is `before` with a detached computer built into it, whose bus and parts are new.
pub open spec fn computer_built(
    before: crate::world::WorldView,
    after: crate::world::WorldView,
    root: NodeId,
    name: Seq<char>,
    spec: ComputerSpec,
    bus: LinkId,
    parts: Seq<NodeId>,
) -> bool {
    &&& all_new(before.network, root, bus, parts)
    &&& own_slots(before.network, root, parts)
    &&& parts.len() == part_names(spec.apps@).len()
    &&& after == with_computer(
        before,
        root,
        name,
        bus,
        parts,
        spec.apps@,
        spec.hardware@.contains(HardwareTag::PromiscuousNic),
    )
}

/// A computer cannot be placed in a node that was removed, or in none: its own handles are new, so
/// the parent stays unknown while the computer is being built.
pub proof fn law_a_gone_parent_stays_unknown(
    before: crate::world::WorldView,
    after: crate::world::WorldView,
    issued: crate::handles::Issued,
    root: NodeId,
    name: Seq<char>,
    spec: ComputerSpec,
    bus: LinkId,
    parts: Seq<NodeId>,
    at: Placement,
)
    requires
        computer_built(before, after, root, name, spec, bus, parts),
        all_new_to(issued, root, bus, parts),
        !before.network.nodes.contains_key(at.parent),
        !crate::handles::is_new_to(issued.nodes, at.parent.spec_raw()),
    ensures
        root != at.parent,
        after.network.connect_error(at.parent, root, at.link) == Some(
            NetworkError::UnknownNode(at.parent),
        ),
{
    if parts.contains(at.parent) {
        let i = parts.index_of(at.parent);
        assert(parts[i] == at.parent);
    }
}

/// Apps of which none is listed twice are all different.
proof fn lemma_first_repeat(apps: Seq<AppKind>)
    ensures
        first_repeat(apps) is None <==> apps.no_duplicates(),
    decreases apps.len(),
{
    if apps.len() > 0 {
        let front = apps.drop_last();
        lemma_first_repeat(front);
        assert(front.push(apps.last()) =~= apps);
        crate::lists::lemma_push_contains(front, apps.last());
        if apps.no_duplicates() {
            assert(front.no_duplicates()) by {
                assert forall|i: int, j: int|
                    0 <= i < front.len() && 0 <= j < front.len() && i != j implies front[i]
                    != front[j] by {
                    assert(apps[i] != apps[j]);
                }
            }
            if front.contains(apps.last()) {
                let i = choose|i: int| 0 <= i < front.len() && front[i] == apps.last();
                assert(apps[i] == apps[apps.len() - 1]);
            }
        }
    }
}

/// There are as many apps as the catalogue lists.
proof fn lemma_app_count(apps: Seq<AppKind>)
    requires
        apps.no_duplicates(),
    ensures
        apps.len() <= 13,
{
    let all = set![
        AppKind::FileManager,
        AppKind::NetScan,
        AppKind::Mail,
        AppKind::Calendar,
        AppKind::Browser,
        AppKind::Terminal,
        AppKind::BbsClient,
        AppKind::Dialer,
        AppKind::CryptCracker,
        AppKind::FileShare,
        AppKind::Directory,
        AppKind::Scheduler,
        AppKind::Database,
    ];
    apps.unique_seq_to_set();
    assert(apps.to_set().subset_of(all)) by {
        assert forall|a: AppKind| all.contains(a) by {
            match a {
                AppKind::FileManager => {},
                AppKind::NetScan => {},
                AppKind::Mail => {},
                AppKind::Calendar => {},
                AppKind::Browser => {},
                AppKind::Terminal => {},
                AppKind::BbsClient => {},
                AppKind::Dialer => {},
                AppKind::CryptCracker => {},
                AppKind::FileShare => {},
                AppKind::Directory => {},
                AppKind::Scheduler => {},
                AppKind::Database => {},
            }
        }
    }
    vstd::set_lib::lemma_len_subset(apps.to_set(), all);
}

/// The services' names are valid.
proof fn lemma_service_names_valid(i: int)
    requires
        0 <= i < SERVICES,
    ensures
        crate::graph::valid_name(crate::computer::service_names()[i]),
{
    reveal_strlit("login-manager");
    reveal_strlit("registry");
    reveal_strlit("desktop");
    reveal_strlit("hid-serv");
    reveal_strlit("drive-bay");
    let name = crate::computer::service_names()[i];
    assert(i == 0 || i == 1 || i == 2 || i == 3 || i == 4);
    crate::graph::lemma_not_reserved(name);
}

/// The apps' names are valid.
proof fn lemma_app_name_valid(app: AppKind)
    ensures
        crate::graph::valid_name(app.text()),
{
    reveal_strlit("fileman");
    reveal_strlit("net-scan");
    reveal_strlit("mail");
    reveal_strlit("calendar");
    reveal_strlit("browser");
    reveal_strlit("terminal");
    reveal_strlit("bbs-client");
    reveal_strlit("dialer");
    reveal_strlit("crypt-cracker");
    reveal_strlit("file-share");
    reveal_strlit("directory");
    reveal_strlit("scheduler");
    reveal_strlit("database");
    crate::graph::lemma_not_reserved(app.text());
}

/// Everything inside a computer has a valid name of its own.
proof fn lemma_part_names(apps: Seq<AppKind>)
    requires
        apps.no_duplicates(),
    ensures
        part_names(apps).no_duplicates(),
        forall|i: int|
            0 <= i < part_names(apps).len() ==> crate::graph::valid_name(
                #[trigger] part_names(apps)[i],
            ),
{
    let names = part_names(apps);
    let services = crate::computer::service_names();
    crate::computer::reveal_names();
    assert forall|i: int| 0 <= i < names.len() implies crate::graph::valid_name(
        #[trigger] names[i],
    ) by {
        if i < SERVICES {
            lemma_service_names_valid(i);
        } else {
            lemma_app_name_valid(apps[i - SERVICES]);
        }
    }
    assert forall|i: int, j: int| 0 <= i < names.len() && 0 <= j < names.len() && i != j implies names[i]
        != names[j] by {
        if i < SERVICES && j < SERVICES {
            assert(i == 0 || i == 1 || i == 2 || i == 3 || i == 4);
            assert(j == 0 || j == 1 || j == 2 || j == 3 || j == 4);
        } else if i < SERVICES {
            crate::computer::law_app_names_are_distinct(apps[j - SERVICES], apps[j - SERVICES]);
            assert(services.contains(services[i]));
        } else if j < SERVICES {
            crate::computer::law_app_names_are_distinct(apps[i - SERVICES], apps[i - SERVICES]);
            assert(services.contains(services[j]));
        } else {
            crate::computer::law_app_names_are_distinct(apps[i - SERVICES], apps[j - SERVICES]);
        }
    }
}

/// Connecting a new node inside a composite node gives it one more part.
proof fn lemma_add_part(
    v: crate::graph::NetView,
    root: NodeId,
    name: Seq<char>,
    bus: LinkId,
    parts: Seq<NodeId>,
    names: Seq<Seq<char>>,
    id: NodeId,
)
    requires
        v.inv(),
        all_new(v, root, bus, parts),
        names.no_duplicates(),
        parts.len() < names.len(),
        !with_composite(v, root, name, bus, parts, names).nodes.contains_key(id),
    ensures
        ({
            let w = with_composite(v, root, name, bus, parts, names).with_node(
                id,
                names[parts.len() as int],
                part_kind(parts.len() as int),
            );
            &&& all_new(v, root, bus, parts.push(id))
            &&& w.connect_error(root, id, Some(bus)) is None
            &&& w.connect_result(root, id, Some(bus)) == with_composite(
                v,
                root,
                name,
                bus,
                parts.push(id),
                names,
            )
        }),
{
    let c = with_composite(v, root, name, bus, parts, names);
    let w = c.with_node(id, names[parts.len() as int], part_kind(parts.len() as int));
    let more = parts.push(id);
    crate::lists::lemma_push_contains(parts, id);
    assert(!parts.contains(id));
    assert(id != root);
    assert(all_new(v, root, bus, more)) by {
        assert forall|i: int| 0 <= i < more.len() implies !v.nodes.contains_key(
            #[trigger] more[i],
        ) by {
            if i < parts.len() {
                assert(!v.nodes.contains_key(parts[i]));
            }
        }
    }
    assert(w.nodes[root].parent is None);
    assert(w.nodes[id].parent is None);
    assert(!crate::graph::within(w.nodes, root, id)) by {
        if crate::graph::within(w.nodes, root, id) {
            let k = choose|k: nat| crate::graph::up(w.nodes, root, k) == Some(id);
            assert(crate::graph::up(w.nodes, root, 0) == Some(root));
            assert(crate::graph::up(w.nodes, root, 1) is None);
            if k > 0 {
                crate::graph::lemma_up_ended(w.nodes, root, 1, k);
            }
        }
    }
    assert forall|i: int| 0 <= i < parts.len() implies w.nodes[#[trigger] parts[i]].name
        == names[i] by {
        assert(parts.contains(parts[i]));
        assert(parts.index_of(parts[i]) == i);
        assert(parts[i] != root);
        assert(!v.nodes.contains_key(parts[i]));
    }
    assert(!w.node_name_taken(id, bus)) by {
        if w.node_name_taken(id, bus) {
            let other = choose|other: NodeId| #[trigger]
                w.links[bus].subscribers.contains(other) && w.nodes[other].name
                    == w.nodes[id].name;
            let i = choose|i: int| 0 <= i < parts.len() && parts[i] == other;
            assert(names[i] == names[parts.len() as int]);
        }
    }
    let done = w.connect_result(root, id, Some(bus));
    let goal = with_composite(v, root, name, bus, more, names);
    assert(w.subscribe_error(id, bus) is None);
    assert(done.nodes =~= goal.nodes) by {
        assert forall|n: NodeId| #[trigger] goal.nodes.contains_key(n) implies done.nodes[n]
            == goal.nodes[n] by {
            if n == root {
                assert(done.nodes[n].children == more);
            } else if n == id {
                assert(more[parts.len() as int] == id);
                assert(more.index_of(id) == parts.len());
                assert(done.nodes[n].subscriptions =~= seq![bus]);
            } else if !v.nodes.contains_key(n) {
                assert(parts.contains(n));
                let i = parts.index_of(n);
                assert(parts[i] == n);
                assert(more[i] == n);
                assert(more.index_of(n) == i);
            }
        }
    }
    assert(done.links =~= goal.links);
    assert(done.node_order =~= goal.node_order);
}

/// The name of the `i`th thing inside a computer.
fn part_name(apps: &Vec<AppKind>, i: usize) -> (r: &'static str)
    requires
        i < SERVICES + apps@.len(),
    ensures
        r@ == part_names(apps@)[i as int],
{
    if i >= SERVICES {
        return apps[i - SERVICES].name();
    }
    match i {
        0 => "login-manager",
        1 => "registry",
        2 => "desktop",
        3 => "hid-serv",
        _ => "drive-bay",
    }
}

/// The logic of the `i`th thing inside a computer.
fn part_behaviour(apps: &Vec<AppKind>, i: usize) -> (r: Behaviour)
    requires
        i < SERVICES + apps@.len(),
    ensures
        r@ == part_logic(apps@, i as int),
        r@ !is Custom,
{
    if i >= SERVICES {
        apps[i - SERVICES].logic()
    } else {
        Behaviour::Responder(Responder)
    }
}

/// Whether something inside a computer has that name.
fn is_used_inside(apps: &Vec<AppKind>, name: &str) -> (r: bool)
    ensures
        r == part_names(apps@).contains(name@),
{
    let ghost names = part_names(apps@);
    let mut i: usize = 0;
    while i < SERVICES
        invariant
            i <= SERVICES,
            names == part_names(apps@),
            forall|j: int| 0 <= j < i ==> names[j] != name@,
        decreases SERVICES - i,
    {
        if same_text(part_name(apps, i), name) {
            assert(names[i as int] == name@);
            return true;
        }
        i += 1;
    }
    let mut k: usize = 0;
    while k < apps.len()
        invariant
            k <= apps.len(),
            names == part_names(apps@),
            forall|j: int| 0 <= j < SERVICES + k ==> names[j] != name@,
        decreases apps.len() - k,
    {
        assert(names[SERVICES + k] == apps@[k as int].text());
        if same_text(apps[k].name(), name) {
            return true;
        }
        k += 1;
    }
    false
}

/// The first app that is listed a second time.
fn find_repeat(apps: &Vec<AppKind>) -> (r: Option<AppKind>)
    ensures
        r == first_repeat(apps@),
{
    let mut i: usize = 0;
    while i < apps.len()
        invariant
            i <= apps.len(),
            first_repeat(apps@.take(i as int)) is None,
        decreases apps.len() - i,
    {
        let ghost seen = apps@.take(i as int);
        assert(apps@.take(i + 1).drop_last() =~= seen);
        assert(apps@.take(i + 1).last() == apps@[i as int]);
        let mut j: usize = 0;
        while j < i
            invariant
                j <= i < apps.len(),
                seen == apps@.take(i as int),
                first_repeat(seen) is None,
                apps@.take(i + 1).drop_last() == seen,
                apps@.take(i + 1).last() == apps@[i as int],
                forall|k: int| 0 <= k < j ==> seen[k] != apps@[i as int],
            decreases i - j,
        {
            if apps[j] == apps[i] {
                assert(seen[j as int] == apps@[i as int]);
                assert(first_repeat(apps@.take(i + 1)) == Some(apps@[i as int]));
                proof {
                    lemma_repeat_stays(apps@, i + 1);
                }
                return Some(apps[i]);
            }
            j += 1;
        }
        assert(!seen.contains(apps@[i as int]));
        i += 1;
    }
    assert(apps@.take(i as int) =~= apps@);
    None
}

/// The first repeat of a list is that of every longer one.
proof fn lemma_repeat_stays(apps: Seq<AppKind>, n: int)
    requires
        0 <= n <= apps.len(),
        first_repeat(apps.take(n)) is Some,
    ensures
        first_repeat(apps) == first_repeat(apps.take(n)),
    decreases apps.len() - n,
{
    if n < apps.len() {
        assert(apps.take(n + 1).drop_last() =~= apps.take(n));
        lemma_repeat_stays(apps, n + 1);
    } else {
        assert(apps.take(n) =~= apps);
    }
}

/// Builds the next thing inside a computer: creates its node, connects it and attaches its logic.
fn add_part(
    world: &mut World,
    root: NodeId,
    bus: LinkId,
    apps: &Vec<AppKind>,
    i: usize,
    v: Ghost<crate::graph::NetView>,
    name: Ghost<Seq<char>>,
    parts: Ghost<Seq<NodeId>>,
) -> (r: Result<NodeId, TemplateError>)
    requires
        old(world).inv(),
        old(world)@.network.inv(),
        v@.inv(),
        i < SERVICES + apps@.len(),
        i == parts@.len(),
        apps@.no_duplicates(),
        all_new(v@, root, bus, parts@),
        own_slots(v@, root, parts@),
        slots_differ(root, parts@),
        old(world)@.network == with_composite(
            v@,
            root,
            name@,
            bus,
            parts@,
            part_names(apps@),
        ),
        old(world)@.network.nodes.len() < u32::MAX - 1,
        old(world)@.topology_changed,
    ensures
        final(world).inv(),
        final(world)@.network.inv(),
        r matches Ok(id) && {
            &&& all_new(v@, root, bus, parts@.push(id))
            &&& own_slots(v@, root, parts@.push(id))
            &&& slots_differ(root, parts@.push(id))
            &&& final(world)@ == (crate::world::WorldView {
                network: with_composite(
                    v@,
                    root,
                    name@,
                    bus,
                    parts@.push(id),
                    part_names(apps@),
                ),
                logics: crate::side_slots::entered(
                    old(world)@.logics,
                    id,
                    part_logic(apps@, i as int),
                ),
                ..old(world)@
            })
            &&& final(world)@.network.nodes.len() == old(world)@.network.nodes.len() + 1
            &&& crate::handles::is_new_to(old(world).issued().nodes, id.spec_raw())
            &&& crate::handles::stays_spent(
                old(world).issued().nodes,
                final(world).issued().nodes,
            )
        },
{
    let ghost before = world@.network;
    proof {
        lemma_part_names(apps@);
    }
    let kind = if i < SERVICES {
        "service"
    } else {
        "app"
    };
    let created = world.network_mut().create_node(part_name(apps, i), kind);
    let node = match created {
        Ok(node) => node,
        Err(e) => return Err(TemplateError::Network(e)),
    };
    proof {
        lemma_add_part(v@, root, name@, bus, parts@, part_names(apps@), node);
        assert(slots_differ(root, parts@.push(node))) by {
            assert(before.nodes.contains_key(root));
            assert forall|j: int| 0 <= j < parts@.len() implies !crate::ids::same_slot(
                #[trigger] parts@[j],
                node,
            ) by {
                assert(parts@.contains(parts@[j]));
                assert(before.nodes.contains_key(parts@[j]));
            }
        }
        assert(own_slots(v@, root, parts@.push(node))) by {
            assert(own_slot(v@, node)) by {
                assert forall|k: NodeId| #[trigger] v@.nodes.contains_key(k) implies
                    !crate::ids::same_slot(k, node) by {
                    assert(before.nodes.contains_key(k));
                }
            }
            assert forall|j: int| 0 <= j < parts@.push(node).len() implies own_slot(
                v@,
                #[trigger] parts@.push(node)[j],
            ) by {
                if j < parts@.len() {
                    assert(own_slot(v@, parts@[j]));
                }
            }
        }
    }
    // Once connected, it is inside `root` and goes if `root` goes; until then, clean up here.
    let connected = world.network_mut().connect(root, node, Some(bus));
    if let Err(e) = connected {
        let _ = world.remove_node(node);
        return Err(TemplateError::Network(e));
    }
    proof {
        assert(world@.network.nodes.dom() =~= before.nodes.dom().insert(node)) by {
            crate::lists::lemma_push_contains(parts@, node);
        }
    }
    match world.attach(node, part_behaviour(apps, i)) {
        Ok(_) => Ok(node),
        Err(e) => Err(TemplateError::Logic(e)),
    }
}

/// Everything inside a computer. On error, the caller removes `root` and all of this with it.
fn fill_computer(
    world: &mut World,
    root: NodeId,
    spec: &ComputerSpec,
    w: Ghost<crate::world::WorldView>,
    name: Ghost<Seq<char>>,
) -> (r: (Result<(), TemplateError>, Ghost<LinkId>, Ghost<Seq<NodeId>>))
    requires
        old(world).inv(),
        old(world)@.network.inv(),
        w@.network.inv(),
        spec.apps@.no_duplicates(),
        !w@.network.nodes.contains_key(root),
        own_slot(w@.network, root),
        old(world)@ == (crate::world::WorldView {
            network: w@.network.with_node(root, name@, "computer"@),
            topology_changed: true,
            ..w@
        }),
        w@.network.nodes.len() + 20 < u32::MAX,
        w@.network.links.len() + 1 < u32::MAX,
    ensures
        final(world).inv(),
        final(world)@.network.inv(),
        r.0 is Ok,
        crate::handles::is_new_to(old(world).issued().links, r.1@.spec_raw()),
        forall|i: int|
            0 <= i < r.2@.len() ==> crate::handles::is_new_to(
                old(world).issued().nodes,
                (#[trigger] r.2@[i]).spec_raw(),
            ),
        all_new(w@.network, root, r.1@, r.2@),
        own_slots(w@.network, root, r.2@),
        slots_differ(root, r.2@),
        r.2@.len() == part_names(spec.apps@).len(),
        final(world)@ == with_computer(
            w@,
            root,
            name@,
            r.1@,
            r.2@,
            spec.apps@,
            spec.hardware@.contains(HardwareTag::PromiscuousNic),
        ),
{
    let ghost v = w@.network;
    let ghost none: Seq<NodeId> = Seq::empty();
    proof {
        lemma_app_count(spec.apps@);
        reveal_strlit("ipc");
        crate::graph::lemma_not_reserved(crate::names::IPC@);
        assert(crate::graph::valid_name(crate::names::IPC@));
        assert(v.with_node(root, name@, "computer"@).nodes.dom() =~= v.nodes.dom().insert(root));
    }
    let created = world.network_mut().create_link(names::IPC);
    let bus = match created {
        Ok(bus) => bus,
        Err(e) => return (Err(TemplateError::Network(e)), Ghost(arbitrary()), Ghost(none)),
    };
    proof {
        let n = world@.network;
        assert(n.nodes[root].internal_links.len() == 0);
        assert(!n.link_name_taken(root, bus));
    }
    let owned = world.network_mut().add_internal_link(root, bus);
    if let Err(e) = owned {
        let _ = world.network_mut().remove_link(bus);
        return (Err(TemplateError::Network(e)), Ghost(bus), Ghost(none));
    }
    let ghost mut parts = none;
    proof {
        let goal = with_composite(v, root, name@, bus, none, part_names(spec.apps@));
        let n = world@.network;
        assert(n.nodes[root].internal_links =~= seq![bus]);
        assert(n.nodes =~= goal.nodes);
        assert(n.links =~= goal.links);
        assert(n.nodes.dom() =~= v.nodes.dom().insert(root));
    }
    let total: usize = SERVICES + spec.apps.len();
    let mut i: usize = 0;
    while i < total
        invariant
            i <= total,
            total == SERVICES + spec.apps@.len(),
            total <= 18,
            parts.len() == i,
            crate::handles::stays_spent(old(world).issued().nodes, world.issued().nodes),
            forall|k: int|
                0 <= k < parts.len() ==> crate::handles::is_new_to(
                    old(world).issued().nodes,
                    (#[trigger] parts[k]).spec_raw(),
                ),
            world.inv(),
            world@.network.inv(),
            v == w@.network,
            v.inv(),
            spec.apps@.no_duplicates(),
            all_new(v, root, bus, parts),
            own_slots(v, root, parts),
            slots_differ(root, parts),
            world@ == (crate::world::WorldView {
                network: with_composite(v, root, name@, bus, parts, part_names(spec.apps@)),
                logics: with_part_logics(w@.logics, parts, spec.apps@),
                topology_changed: true,
                ..w@
            }),
            world@.network.nodes.len() == v.nodes.len() + 1 + i,
            v.nodes.len() + 20 < u32::MAX,
        decreases total - i,
    {
        match add_part(
            world,
            root,
            bus,
            &spec.apps,
            i,
            Ghost(v),
            Ghost(name@),
            Ghost(parts),
        ) {
            Ok(node) => {
                proof {
                    assert(parts.push(node).drop_last() =~= parts);
                    assert(parts.push(node).last() == node);
                    parts = parts.push(node);
                }
            },
            Err(e) => return (Err(e), Ghost(bus), Ghost(parts)),
        }
        i += 1;
    }
    match world.attach(root, Behaviour::Kernel(Kernel::new(&spec.hardware))) {
        Ok(_) => (Ok(()), Ghost(bus), Ghost(parts)),
        Err(e) => (Err(TemplateError::Logic(e)), Ghost(bus), Ghost(parts)),
    }
}

/// Finishes a build: gives back a freshly created `root` if filling it went well, and otherwise
/// removes it and everything created under it, so a failed build leaves no trace.
///
/// # Errors
///
/// Fails with what went wrong.
pub fn or_remove(world: &mut World, root: NodeId, filled: Result<(), TemplateError>) -> (r: Result<
    NodeId,
    TemplateError,
>)
    requires
        old(world).inv(),
        old(world)@.network.inv(),
    ensures
        final(world).inv(),
        final(world)@.network.inv(),
        match filled {
            Ok(_) => r == Ok::<NodeId, TemplateError>(root) && final(world)@ == old(world)@,
            Err(e) => r == Err::<NodeId, TemplateError>(e) && final(world)@ == (if old(
                world,
            )@.network.nodes.contains_key(root) && root != old(world)@.network.root {
                old(world)@.without_node(root)
            } else {
                old(world)@
            }),
        },
{
    match filled {
        Ok(()) => Ok(root),
        Err(e) => {
            let _ = world.remove_node(root);
            Err(e)
        },
    }
}

/// Connects a just-built `root` at `at`; if that fails, removes it again.
fn attach_or_remove(world: &mut World, root: NodeId, at: Placement) -> (r: Result<
    NodeId,
    TemplateError,
>)
    requires
        old(world).inv(),
        old(world)@.network.inv(),
        old(world)@.network.nodes.contains_key(root),
        root != old(world)@.network.root,
    ensures
        final(world).inv(),
        final(world)@.network.inv(),
        match r {
            Ok(id) => id == root && old(world)@.network.connect_error(at.parent, root, at.link)
                is None && final(world)@ == (crate::world::WorldView {
                network: old(world)@.network.connect_result(at.parent, root, at.link),
                topology_changed: true,
                ..old(world)@
            }),
            Err(e) => old(world)@.network.connect_error(at.parent, root, at.link) matches Some(p)
                && e@ == TemplateErrorView::Network(p) && final(world)@
                == (crate::world::WorldView {
                topology_changed: true,
                ..old(world)@
            }).without_node(root),
        },
{
    let connected = match world.network_mut().connect(at.parent, root, at.link) {
        Ok(()) => Ok(()),
        Err(e) => Err(TemplateError::Network(e)),
    };
    or_remove(world, root, connected)
}

/// Builds a computer and returns its root, detached: connect it wherever it belongs (or use
/// [`build_computer_at`] to build and connect in one step).
///
/// Atomic: if it fails, nothing is left in the world.
///
/// Inside: a `kernel` root that is the computer's gateway, an `ipc` bus, the services, and one
/// node per installed app. Callers should treat the insides as private; they may grow.
///
/// # Errors
///
/// Fails, without building anything, if the name is invalid or used by something inside the
/// computer, or an app is listed twice.
pub fn build_computer(world: &mut World, name: &str, spec: &ComputerSpec) -> (r: Result<
    NodeId,
    TemplateError,
>)
    requires
        old(world).inv(),
        old(world)@.network.inv(),
        old(world)@.network.nodes.len() + 20 < u32::MAX,
        old(world)@.network.links.len() + 1 < u32::MAX,
    ensures
        final(world).inv(),
        final(world)@.network.inv(),
        match r {
            Ok(root) => computer_error(name@, spec.apps@) is None && exists|
                bus: LinkId,
                parts: Seq<NodeId>,
            | #[trigger]
                computer_built(old(world)@, final(world)@, root, name@, *spec, bus, parts)
                    && all_new_to(old(world).issued(), root, bus, parts) && slots_differ(
                    root,
                    parts,
                ),
            Err(e) => computer_error(name@, spec.apps@) == Some(e@) && final(world)@ == old(world)@,
        },
{
    let ghost before = world@;
    let ghost issued = world.issued();
    if let Err(e) = Network::validate_name(name) {
        return Err(TemplateError::Network(e));
    }
    if is_used_inside(&spec.apps, name) {
        return Err(TemplateError::NameUsedInside(name.to_owned()));
    }
    if let Some(twice) = find_repeat(&spec.apps) {
        return Err(TemplateError::AppInstalledTwice(twice));
    }
    proof {
        lemma_first_repeat(spec.apps@);
    }
    let created = world.network_mut().create_node(name, "computer");
    let root = match created {
        Ok(root) => root,
        Err(e) => return Err(TemplateError::Network(e)),
    };
    let (filled, bus, parts) = fill_computer(world, root, spec, Ghost(before), Ghost(name@));
    let built = or_remove(world, root, filled);
    proof {
        assert(built is Ok && built->Ok_0 == root);
        assert(computer_error(name@, spec.apps@) is None);
        assert(computer_built(before, world@, root, name@, *spec, bus@, parts@));
        assert(all_new_to(issued, root, bus@, parts@));
    }
    built
}

/// Whether a world is as it was before: its network, the logic and counters of every node in it,
/// and everything else, except that its topology counts as changed.
pub open spec fn is_restored(
    before: crate::world::WorldView,
    after: crate::world::WorldView,
) -> bool {
    &&& after == crate::world::WorldView {
        logics: after.logics,
        stats: after.stats,
        topology_changed: true,
        ..before
    }
    &&& forall|n: NodeId| #[trigger]
        before.network.nodes.contains_key(n) ==> {
            &&& after.logics.contains_key(n) == before.logics.contains_key(n)
            &&& before.logics.contains_key(n) ==> after.logics[n] == before.logics[n]
            &&& after.stats.contains_key(n) == before.stats.contains_key(n)
            &&& before.stats.contains_key(n) ==> after.stats[n] == before.stats[n]
        }
}

/// Whether all that `w` has and `v` has not is inside the node `id` and came later: nodes in its
/// subtree, and links owned by them.
pub open spec fn adds_only_inside(
    v: crate::graph::NetView,
    w: crate::graph::NetView,
    id: NodeId,
) -> bool {
    &&& w.root == v.root
    &&& !v.nodes.contains_key(id)
    &&& forall|n: NodeId| #[trigger]
        v.nodes.contains_key(n) ==> w.nodes.contains_key(n) && w.nodes[n] == v.nodes[n]
    &&& forall|l: LinkId| #[trigger]
        v.links.contains_key(l) ==> w.links.contains_key(l) && w.links[l] == v.links[l]
    &&& forall|n: NodeId| #[trigger]
        w.nodes.contains_key(n) && !v.nodes.contains_key(n) ==> crate::graph::within(
            w.nodes,
            n,
            id,
        )
    &&& forall|l: LinkId| #[trigger]
        w.links.contains_key(l) && !v.links.contains_key(l) ==> w.links[l].owner is Some
            && w.nodes.contains_key(w.links[l].owner->0) && !v.nodes.contains_key(
            w.links[l].owner->0,
        )
    &&& v.node_order.is_prefix_of(w.node_order)
    &&& v.link_order.is_prefix_of(w.link_order)
    &&& forall|i: int|
        v.node_order.len() <= i < w.node_order.len() ==> w.nodes.contains_key(
            #[trigger] w.node_order[i],
        ) && !v.nodes.contains_key(w.node_order[i])
    &&& forall|i: int|
        v.link_order.len() <= i < w.link_order.len() ==> w.links.contains_key(
            #[trigger] w.link_order[i],
        ) && !v.links.contains_key(w.link_order[i])
}

/// A node that was there before has the same ancestors.
proof fn lemma_same_ancestors(
    v: crate::graph::NetView,
    w: crate::graph::NetView,
    id: NodeId,
    x: NodeId,
    k: nat,
)
    requires
        v.inv(),
        adds_only_inside(v, w, id),
        v.nodes.contains_key(x),
    ensures
        crate::graph::up(w.nodes, x, k) == crate::graph::up(v.nodes, x, k),
        crate::graph::up(v.nodes, x, k) matches Some(y) ==> v.nodes.contains_key(y),
    decreases k,
{
    if k > 0 {
        lemma_same_ancestors(v, w, id, x, (k - 1) as nat);
    }
}

/// Leaving out all that was added to a list gives the list back.
proof fn lemma_without_added<T>(s: Seq<T>, all: Seq<T>, gone: Set<T>)
    requires
        s.is_prefix_of(all),
        forall|x: T| s.contains(x) ==> !gone.contains(x),
        forall|i: int| s.len() <= i < all.len() ==> gone.contains(#[trigger] all[i]),
    ensures
        crate::lists::without(all, gone) == s,
    decreases all.len(),
{
    if s.len() == all.len() {
        assert(all =~= s);
        crate::lists::lemma_without_none(s, gone);
    } else {
        lemma_without_added(s, all.drop_last(), gone);
        assert(gone.contains(all[all.len() - 1]));
    }
}

/// Removing a node undoes all that was built inside it: where everything new is inside the node,
/// what is left without it is the network as it was.
pub proof fn law_removing_undoes_building(
    v: crate::graph::NetView,
    w: crate::graph::NetView,
    id: NodeId,
)
    requires
        v.inv(),
        adds_only_inside(v, w, id),
    ensures
        w.removed(id) == v,
{
    let dn = w.doomed_nodes(id);
    let dl = w.doomed_links(id);
    assert forall|n: NodeId| v.nodes.contains_key(n) implies !dn.contains(n) by {
        if crate::graph::within(w.nodes, n, id) {
            let k = choose|k: nat| crate::graph::up(w.nodes, n, k) == Some(id);
            lemma_same_ancestors(v, w, id, n, k);
        }
    }
    assert forall|l: LinkId| v.links.contains_key(l) implies !dl.contains(l) by {
        if dl.contains(l) {
            assert(v.links[l].owner is Some);
            assert(v.nodes.contains_key(v.links[l].owner->0));
        }
    }
    let r = w.removed(id);
    assert(r.nodes =~= v.nodes) by {
        assert forall|n: NodeId| #[trigger] r.nodes.contains_key(n) == v.nodes.contains_key(n) by {
            if w.nodes.contains_key(n) && !v.nodes.contains_key(n) {
                assert(dn.contains(n));
            }
        }
        assert forall|n: NodeId| #[trigger] v.nodes.contains_key(n) implies r.nodes[n]
            == v.nodes[n] by {
            assert forall|c: NodeId| v.nodes[n].children.contains(c) implies !dn.contains(c) by {}
            crate::lists::lemma_without_none(v.nodes[n].children, dn);
            assert forall|l: LinkId| v.nodes[n].internal_links.contains(l) implies !dl.contains(
                l,
            ) by {}
            crate::lists::lemma_without_none(v.nodes[n].internal_links, dl);
            assert forall|l: LinkId| v.nodes[n].subscriptions.contains(l) implies !dl.contains(
                l,
            ) by {}
            crate::lists::lemma_without_none(v.nodes[n].subscriptions, dl);
        }
    }
    assert forall|i: int| v.node_order.len() <= i < w.node_order.len() implies dn.contains(
        #[trigger] w.node_order[i],
    ) by {
        assert(w.nodes.contains_key(w.node_order[i]));
    }
    lemma_without_added(v.node_order, w.node_order, dn);
    assert forall|i: int| v.link_order.len() <= i < w.link_order.len() implies dl.contains(
        #[trigger] w.link_order[i],
    ) by {
        let l = w.link_order[i];
        assert(w.links.contains_key(l));
        assert(dn.contains(w.links[l].owner->0));
    }
    lemma_without_added(v.link_order, w.link_order, dl);
    assert(r.links =~= v.links) by {
        assert forall|l: LinkId| #[trigger] r.links.contains_key(l) == v.links.contains_key(l) by {
            if w.links.contains_key(l) && !v.links.contains_key(l) {
                let owner = w.links[l].owner->0;
                assert(dn.contains(owner));
                assert(dl.contains(l));
            }
        }
        assert forall|l: LinkId| #[trigger] v.links.contains_key(l) implies r.links[l]
            == v.links[l] by {
            assert forall|n: NodeId| v.links[l].subscribers.contains(n) implies !dn.contains(
                n,
            ) by {}
            crate::lists::lemma_without_none(v.links[l].subscribers, dn);
        }
    }
}

/// A composite node adds nothing outside itself.
proof fn lemma_composite_adds_inside(
    v: crate::graph::NetView,
    root: NodeId,
    name: Seq<char>,
    bus: LinkId,
    parts: Seq<NodeId>,
    names: Seq<Seq<char>>,
)
    requires
        all_new(v, root, bus, parts),
    ensures
        adds_only_inside(v, with_composite(v, root, name, bus, parts, names), root),
{
    let w = with_composite(v, root, name, bus, parts, names);
    assert forall|n: NodeId| #[trigger]
        w.nodes.contains_key(n) && !v.nodes.contains_key(n) implies crate::graph::within(
        w.nodes,
        n,
        root,
    ) by {
        assert(crate::graph::up(w.nodes, n, 0) == Some(n));
        if n != root {
            assert(w.nodes[n].parent == Some(root));
            assert(crate::graph::up(w.nodes, n, 1) == Some(root));
        }
    }
}

/// A node's logic or counters stay where something is put in for a handle in another slot.
proof fn lemma_entered_keeps<V>(m: Map<NodeId, V>, k: NodeId, x: V, n: NodeId)
    requires
        !crate::ids::same_slot(n, k),
    ensures
        crate::side_slots::entered(m, k, x).contains_key(n) == m.contains_key(n),
        m.contains_key(n) ==> crate::side_slots::entered(m, k, x)[n] == m[n],
{
}

/// A node's logic stays while the logics of a computer's parts are attached.
proof fn lemma_part_logics_keep(
    v: crate::graph::NetView,
    logics: Map<NodeId, crate::behaviour::BehaviourView>,
    parts: Seq<NodeId>,
    apps: Seq<AppKind>,
    n: NodeId,
)
    requires
        v.nodes.contains_key(n),
        forall|i: int| 0 <= i < parts.len() ==> own_slot(v, #[trigger] parts[i]),
    ensures
        with_part_logics(logics, parts, apps).contains_key(n) == logics.contains_key(n),
        logics.contains_key(n) ==> with_part_logics(logics, parts, apps)[n] == logics[n],
    decreases parts.len(),
{
    if parts.len() > 0 {
        let front = parts.drop_last();
        assert forall|i: int| 0 <= i < front.len() implies own_slot(v, #[trigger] front[i]) by {
            assert(own_slot(v, parts[i]));
        }
        lemma_part_logics_keep(v, logics, front, apps, n);
        assert(own_slot(v, parts[parts.len() - 1]));
        lemma_entered_keeps(
            with_part_logics(logics, front, apps),
            parts.last(),
            part_logic(apps, parts.len() - 1),
            n,
        );
    }
}

/// Removing a computer that was just built leaves the world as it was.
proof fn lemma_computer_removed(
    w: crate::world::WorldView,
    root: NodeId,
    name: Seq<char>,
    bus: LinkId,
    parts: Seq<NodeId>,
    apps: Seq<AppKind>,
    promiscuous: bool,
)
    requires
        w.network.inv(),
        all_new(w.network, root, bus, parts),
        own_slots(w.network, root, parts),
    ensures
        is_restored(
            w,
            with_computer(w, root, name, bus, parts, apps, promiscuous).without_node(root),
        ),
{
    let built = with_computer(w, root, name, bus, parts, apps, promiscuous);
    let after = built.without_node(root);
    let v = w.network;
    lemma_composite_adds_inside(v, root, name, bus, parts, part_names(apps));
    law_removing_undoes_building(v, built.network, root);
    let gone = built.network.doomed_nodes(root);
    assert forall|n: NodeId| #[trigger] v.nodes.contains_key(n) implies {
        &&& after.logics.contains_key(n) == w.logics.contains_key(n)
        &&& w.logics.contains_key(n) ==> after.logics[n] == w.logics[n]
        &&& after.stats.contains_key(n) == w.stats.contains_key(n)
        &&& w.stats.contains_key(n) ==> after.stats[n] == w.stats[n]
    } by {
        assert(built.network.removed(root).nodes.contains_key(n));
        assert(!gone.contains(n));
        lemma_part_logics_keep(v, w.logics, parts, apps, n);
        lemma_entered_keeps(
            with_part_logics(w.logics, parts, apps),
            root,
            crate::behaviour::BehaviourView::Kernel(
                crate::computer::KernelView { promiscuous, sniffed: 0 },
            ),
            n,
        );
    }
}

/// Builds a computer and connects it in one step: nested in `at.parent`, on `at.link`. If
/// either part fails, nothing is left behind.
///
/// # Errors
///
/// Fails if [`build_computer`] or the connection fails; the world is then as it was.
pub fn build_computer_at(
    world: &mut World,
    name: &str,
    spec: &ComputerSpec,
    at: Placement,
) -> (r: Result<NodeId, TemplateError>)
    requires
        old(world).inv(),
        old(world)@.network.inv(),
        old(world)@.network.nodes.len() + 20 < u32::MAX,
        old(world)@.network.links.len() + 1 < u32::MAX,
    ensures
        final(world).inv(),
        final(world)@.network.inv(),
        match r {
            Ok(root) => computer_error(name@, spec.apps@) is None && exists|
                built: crate::world::WorldView,
                bus: LinkId,
                parts: Seq<NodeId>,
            |
                {
                    &&& #[trigger] computer_built(
                        old(world)@,
                        built,
                        root,
                        name@,
                        *spec,
                        bus,
                        parts,
                    )
                    &&& all_new_to(old(world).issued(), root, bus, parts)
                    &&& slots_differ(root, parts)
                    &&& built.network.connect_error(at.parent, root, at.link) is None
                    &&& final(world)@ == (crate::world::WorldView {
                        network: built.network.connect_result(at.parent, root, at.link),
                        ..built
                    })
                },
            Err(e) => match computer_error(name@, spec.apps@) {
                Some(problem) => e@ == problem && final(world)@ == old(world)@,
                None => is_restored(old(world)@, final(world)@) && exists|
                    built: crate::world::WorldView,
                    root: NodeId,
                    bus: LinkId,
                    parts: Seq<NodeId>,
                |
                    {
                        &&& #[trigger] computer_built(
                            old(world)@,
                            built,
                            root,
                            name@,
                            *spec,
                            bus,
                            parts,
                        )
                        &&& all_new_to(old(world).issued(), root, bus, parts)
                        &&& built.network.connect_error(at.parent, root, at.link) matches Some(p)
                            && e@ == TemplateErrorView::Network(p)
                    },
            },
        },
{
    let ghost before = world@;
    let ghost issued = world.issued();
    let root = build_computer(world, name, spec)?;
    let ghost built = world@;
    let ghost promiscuous = spec.hardware@.contains(HardwareTag::PromiscuousNic);
    let ghost (bus, parts) = choose|bus: LinkId, parts: Seq<NodeId>|
        #[trigger] computer_built(before, built, root, name@, *spec, bus, parts) && all_new_to(
            issued,
            root,
            bus,
            parts,
        ) && slots_differ(root, parts);
    let r = attach_or_remove(world, root, at);
    proof {
        assert(computer_built(before, built, root, name@, *spec, bus, parts));
        if r is Err {
            lemma_computer_removed(
                before,
                root,
                name@,
                bus,
                parts,
                spec.apps@,
                promiscuous,
            );
            assert(crate::world::WorldView { topology_changed: true, ..built } == built);
        }
    }
    r
}

/// The world with a detached NPC in it.
pub open spec fn with_npc(
    w: crate::world::WorldView,
    node: NodeId,
    name: Seq<char>,
    spec: crate::npc::NpcSpecView,
) -> crate::world::WorldView {
    crate::world::WorldView {
        network: w.network.with_node(node, name, "npc"@),
        logics: crate::side_slots::entered(
            w.logics,
            node,
            crate::behaviour::BehaviourView::Npc(
                crate::npc::NpcView { spec, goal: None, next_line: 0 },
            ),
        ),
        topology_changed: true,
        ..w
    }
}

/// Why an NPC of that name cannot be built, if it cannot.
pub open spec fn npc_error(name: Seq<char>, spec: crate::npc::NpcSpecView) -> Option<
    TemplateErrorView,
> {
    if !crate::graph::valid_name(name) {
        Some(TemplateErrorView::Network(NetworkError::InvalidName))
    } else {
        match spec.problem() {
            Some(problem) => Some(TemplateErrorView::Npc(problem)),
            None => None,
        }
    }
}

/// Builds an NPC and returns its node, detached: connect it to the links it should hear (or use
/// [`build_npc_at`] to build and connect in one step).
///
/// # Errors
///
/// Fails, without building anything, if the name or spec is invalid.
pub fn build_npc(world: &mut World, name: &str, spec: &NpcSpec) -> (r: Result<
    NodeId,
    TemplateError,
>)
    requires
        old(world).inv(),
        old(world)@.network.inv(),
        old(world)@.network.nodes.len() + 1 < u32::MAX,
    ensures
        final(world).inv(),
        final(world)@.network.inv(),
        match r {
            Ok(node) => {
                &&& npc_error(name@, spec@) is None
                &&& !old(world)@.network.nodes.contains_key(node)
                &&& crate::handles::is_new_to(old(world).issued().nodes, node.spec_raw())
                &&& own_slot(old(world)@.network, node)
                &&& final(world)@ == with_npc(old(world)@, node, name@, spec@)
            },
            Err(e) => npc_error(name@, spec@) == Some(e@) && final(world)@ == old(world)@,
        },
{
    if let Err(e) = Network::validate_name(name) {
        return Err(TemplateError::Network(e));
    }
    spec.validate()?;
    let created = world.network_mut().create_node(name, "npc");
    let node = match created {
        Ok(node) => node,
        Err(e) => return Err(TemplateError::Network(e)),
    };
    let attached = match world.attach(node, Behaviour::Npc(Npc::new(spec.clone()))) {
        Ok(_) => Ok(()),
        Err(e) => Err(TemplateError::Logic(e)),
    };
    let built = or_remove(world, node, attached);
    assert(built == Ok::<NodeId, TemplateError>(node));
    built
}

/// Builds an NPC and connects it in one step. If either part fails, nothing is left behind.
///
/// # Errors
///
/// Fails if [`build_npc`] or the connection fails; the world is then as it was.
pub fn build_npc_at(world: &mut World, name: &str, spec: &NpcSpec, at: Placement) -> (r: Result<
    NodeId,
    TemplateError,
>)
    requires
        old(world).inv(),
        old(world)@.network.inv(),
        old(world)@.network.nodes.len() + 1 < u32::MAX,
    ensures
        final(world).inv(),
        final(world)@.network.inv(),
        match r {
            Ok(node) => {
                let built = with_npc(old(world)@, node, name@, spec@);
                &&& npc_error(name@, spec@) is None
                &&& !old(world)@.network.nodes.contains_key(node)
                &&& crate::handles::is_new_to(old(world).issued().nodes, node.spec_raw())
                &&& built.network.connect_error(at.parent, node, at.link) is None
                &&& final(world)@ == (crate::world::WorldView {
                    network: built.network.connect_result(at.parent, node, at.link),
                    ..built
                })
            },
            Err(e) => match npc_error(name@, spec@) {
                Some(problem) => e@ == problem && final(world)@ == old(world)@,
                None => is_restored(old(world)@, final(world)@) && exists|node: NodeId|
                    {
                        &&& !(#[trigger] old(world)@.network.nodes.contains_key(node))
                        &&& crate::handles::is_new_to(
                            old(world).issued().nodes,
                            node.spec_raw(),
                        )
                        &&& old(world)@.network.with_node(node, name@, "npc"@).connect_error(
                            at.parent,
                            node,
                            at.link,
                        ) matches Some(p) && e@ == TemplateErrorView::Network(p)
                    },
            },
        },
{
    let ghost before = world@;
    let node = build_npc(world, name, spec)?;
    let ghost built = world@;
    let r = attach_or_remove(world, node, at);
    proof {
        if r is Err {
            let v = before.network;
            assert(crate::world::WorldView { topology_changed: true, ..built } == built);
            assert(adds_only_inside(v, built.network, node)) by {
                assert(crate::graph::up(built.network.nodes, node, 0) == Some(node));
            }
            law_removing_undoes_building(v, built.network, node);
            assert forall|n: NodeId| #[trigger] v.nodes.contains_key(n) implies {
                &&& world@.logics.contains_key(n) == before.logics.contains_key(n)
                &&& before.logics.contains_key(n) ==> world@.logics[n] == before.logics[n]
                &&& world@.stats.contains_key(n) == before.stats.contains_key(n)
                &&& before.stats.contains_key(n) ==> world@.stats[n] == before.stats[n]
            } by {
                assert(built.network.removed(node).nodes.contains_key(n));
                lemma_entered_keeps(
                    before.logics,
                    node,
                    crate::behaviour::BehaviourView::Npc(
                        crate::npc::NpcView { spec: spec@, goal: None, next_line: 0 },
                    ),
                    n,
                );
            }
        }
    }
    r
}

} // verus!
