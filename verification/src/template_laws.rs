//! What holds of computers and NPCs that were just built.

use vstd::prelude::*;

use crate::behaviour::{BehaviourView, CallView};
use crate::computer::{AppKind, ComputerSpec, HardwareTag, KernelView};
use crate::graph::{LinkView, NodeView};
use crate::ids::{LinkId, NodeId};
use crate::logic::{AcceptRule, ContextView};
use crate::network::NetworkError;
use crate::npc::{NpcSpecView, NpcView};
use crate::packet::PacketView;
use crate::templates::TemplateErrorView;
use crate::world::WorldView;

verus! {

/// Whether the logic of a node with this handle can be kept: no later handle took its slot over.
pub open spec fn is_free_for(w: WorldView, node: NodeId) -> bool {
    !crate::side_slots::outdated(w.logics.dom(), node)
}

/// What is put under a handle that can be kept is there.
proof fn lemma_entered<V>(m: Map<NodeId, V>, k: NodeId, x: V)
    requires
        crate::ids::is_key(k.spec_raw()),
        !crate::ids::is_null(k.spec_raw()),
        !crate::side_slots::outdated(m.dom(), k),
    ensures
        crate::side_slots::entered(m, k, x).contains_key(k),
        crate::side_slots::entered(m, k, x)[k] == x,
{
}

/// What is put under a handle leaves other slots alone.
proof fn lemma_entered_elsewhere<V>(m: Map<NodeId, V>, k: NodeId, x: V, n: NodeId)
    requires
        !crate::ids::same_slot(n, k),
    ensures
        crate::side_slots::entered(m, k, x).contains_key(n) == m.contains_key(n),
        m.contains_key(n) ==> crate::side_slots::entered(m, k, x)[n] == m[n],
        crate::side_slots::outdated(crate::side_slots::entered(m, k, x).dom(), n)
            == crate::side_slots::outdated(m.dom(), n),
{
    let after = crate::side_slots::entered(m, k, x);
    assert forall|j: NodeId| crate::ids::same_slot(j, n) implies #[trigger] after.dom().contains(j)
        == m.dom().contains(j) by {
        assert(!crate::ids::same_slot(j, k));
    }
    if crate::side_slots::outdated(m.dom(), n) {
        let j = choose|j: NodeId| #[trigger]
            m.dom().contains(j) && j != n && crate::ids::same_slot(j, n)
                && crate::side_slots::is_older(n, j);
        assert(after.dom().contains(j));
    }
    if crate::side_slots::outdated(after.dom(), n) {
        let j = choose|j: NodeId| #[trigger]
            after.dom().contains(j) && j != n && crate::ids::same_slot(j, n)
                && crate::side_slots::is_older(n, j);
        assert(m.dom().contains(j));
    }
}

/// A node whose slot none of the parts is in keeps its logic.
proof fn lemma_parts_elsewhere(
    logics: Map<NodeId, BehaviourView>,
    parts: Seq<NodeId>,
    apps: Seq<AppKind>,
    n: NodeId,
)
    requires
        forall|i: int| 0 <= i < parts.len() ==> !crate::ids::same_slot(n, #[trigger] parts[i]),
    ensures
        ({
            let after = crate::templates::with_part_logics(logics, parts, apps);
            &&& after.contains_key(n) == logics.contains_key(n)
            &&& logics.contains_key(n) ==> after[n] == logics[n]
            &&& crate::side_slots::outdated(after.dom(), n) == crate::side_slots::outdated(
                logics.dom(),
                n,
            )
        }),
    decreases parts.len(),
{
    if parts.len() > 0 {
        let front = parts.drop_last();
        assert forall|i: int| 0 <= i < front.len() implies !crate::ids::same_slot(
            n,
            #[trigger] front[i],
        ) by {
            assert(front[i] == parts[i]);
        }
        lemma_parts_elsewhere(logics, front, apps, n);
        assert(parts[parts.len() - 1] == parts.last());
        lemma_entered_elsewhere(
            crate::templates::with_part_logics(logics, front, apps),
            parts.last(),
            crate::templates::part_logic(apps, parts.len() - 1),
            n,
        );
    }
}

/// Each part has the logic that was attached to it.
proof fn lemma_part_has_logic(
    logics: Map<NodeId, BehaviourView>,
    parts: Seq<NodeId>,
    apps: Seq<AppKind>,
    i: int,
)
    requires
        0 <= i < parts.len(),
        forall|a: int, b: int|
            0 <= a < b < parts.len() ==> !crate::ids::same_slot(
                #[trigger] parts[a],
                #[trigger] parts[b],
            ),
        crate::ids::is_key(parts[i].spec_raw()),
        !crate::ids::is_null(parts[i].spec_raw()),
        !crate::side_slots::outdated(logics.dom(), parts[i]),
    ensures
        ({
            let after = crate::templates::with_part_logics(logics, parts, apps);
            &&& after.contains_key(parts[i])
            &&& after[parts[i]] == crate::templates::part_logic(apps, i)
        }),
    decreases parts.len(),
{
    let front = parts.drop_last();
    let n = parts.len() - 1;
    assert forall|a: int, b: int| 0 <= a < b < front.len() implies !crate::ids::same_slot(
        #[trigger] front[a],
        #[trigger] front[b],
    ) by {
        assert(!crate::ids::same_slot(parts[a], parts[b]));
    }
    let before = crate::templates::with_part_logics(logics, front, apps);
    if i < n {
        assert(front[i] == parts[i]);
        lemma_part_has_logic(logics, front, apps, i);
        assert(!crate::ids::same_slot(parts[i], parts[n]));
        lemma_entered_elsewhere(
            before,
            parts.last(),
            crate::templates::part_logic(apps, n),
            parts[i],
        );
    } else {
        assert forall|a: int| 0 <= a < front.len() implies !crate::ids::same_slot(
            parts[i],
            #[trigger] front[a],
        ) by {
            assert(!crate::ids::same_slot(parts[a], parts[n]));
        }
        lemma_parts_elsewhere(logics, front, apps, parts[i]);
        lemma_entered(before, parts.last(), crate::templates::part_logic(apps, n));
    }
}

/// The name that an app goes by.
pub open spec fn app_name(app: AppKind) -> Seq<char> {
    match app {
        AppKind::FileManager => "fileman"@,
        AppKind::NetScan => "net-scan"@,
        AppKind::Mail => "mail"@,
        AppKind::Calendar => "calendar"@,
        AppKind::Browser => "browser"@,
        AppKind::Terminal => "terminal"@,
        AppKind::BbsClient => "bbs-client"@,
        AppKind::Dialer => "dialer"@,
        AppKind::CryptCracker => "crypt-cracker"@,
        AppKind::FileShare => "file-share"@,
        AppKind::Directory => "directory"@,
        AppKind::Scheduler => "scheduler"@,
        AppKind::Database => "database"@,
    }
}

/// A computer that was just built is one node with all it has inside: the services that every
/// computer has and then its apps, in the order they were asked for, each by its name, on one bus
/// of the computer's own that is called `ipc`. All else in the network is as it was.
pub proof fn law_computers_have_their_parts(
    before: WorldView,
    after: WorldView,
    root: NodeId,
    name: Seq<char>,
    spec: ComputerSpec,
    bus: LinkId,
    parts: Seq<NodeId>,
)
    requires
        crate::templates::computer_built(before, after, root, name, spec, bus, parts),
    ensures
        parts.len() == 5 + spec.apps@.len(),
        after.network.nodes.contains_key(root),
        after.network.nodes[root] == (NodeView {
            name,
            kind: "computer"@,
            parent: None,
            children: parts,
            internal_links: seq![bus],
            subscriptions: Seq::empty(),
        }),
        after.network.links.contains_key(bus),
        after.network.links[bus] == (LinkView {
            name: "ipc"@,
            owner: Some(root),
            subscribers: parts,
        }),
        forall|i: int|
            0 <= i < parts.len() ==> after.network.nodes.contains_key(#[trigger] parts[i])
                && after.network.nodes[parts[i]] == (NodeView {
                name: if i == 0 {
                    "login-manager"@
                } else if i == 1 {
                    "registry"@
                } else if i == 2 {
                    "desktop"@
                } else if i == 3 {
                    "hid-serv"@
                } else if i == 4 {
                    "drive-bay"@
                } else {
                    app_name(spec.apps@[i - 5])
                },
                kind: if i < 5 {
                    "service"@
                } else {
                    "app"@
                },
                parent: Some(root),
                children: Seq::empty(),
                internal_links: Seq::empty(),
                subscriptions: seq![bus],
            }),
        forall|n: NodeId| #[trigger]
            before.network.nodes.contains_key(n) ==> after.network.nodes.contains_key(n)
                && after.network.nodes[n] == before.network.nodes[n],
        forall|n: NodeId| #[trigger]
            after.network.nodes.contains_key(n) ==> before.network.nodes.contains_key(n) || n
                == root || parts.contains(n),
        forall|l: LinkId| #[trigger]
            before.network.links.contains_key(l) ==> after.network.links.contains_key(l)
                && after.network.links[l] == before.network.links[l],
        forall|l: LinkId| #[trigger]
            after.network.links.contains_key(l) ==> before.network.links.contains_key(l) || l
                == bus,
        after.queue == before.queue,
        after.stats == before.stats,
        after.tick_count == before.tick_count,
        after.watch == before.watch,
{
    let names = crate::templates::part_names(spec.apps@);
    assert(crate::computer::service_names().len() == 5);
    assert forall|i: int| 0 <= i < parts.len() implies after.network.nodes.contains_key(
        #[trigger] parts[i],
    ) && parts.index_of(parts[i]) == i by {
        assert(parts.contains(parts[i]));
        assert(parts[parts.index_of(parts[i])] == parts[i]);
        assert(!before.network.nodes.contains_key(parts[i]));
    }
    assert forall|i: int| 0 <= i < parts.len() implies names[i] == (if i == 0 {
        "login-manager"@
    } else if i == 1 {
        "registry"@
    } else if i == 2 {
        "desktop"@
    } else if i == 3 {
        "hid-serv"@
    } else if i == 4 {
        "drive-bay"@
    } else {
        app_name(spec.apps@[i - 5])
    }) by {}
    assert(!before.network.nodes.contains_key(root));
}

/// In a computer that was just built, the part called `net-scan` scans every forty ticks, the
/// other apps and the services answer pings, and the computer itself is run by a kernel, which
/// overhears what it can if there is a network card for that. The logics are of the kinds
/// `scanner`, `responder` and `kernel`. Nobody else's logic changes.
pub proof fn law_computers_run_their_logics(
    before: WorldView,
    after: WorldView,
    issued: crate::handles::Issued,
    root: NodeId,
    name: Seq<char>,
    spec: ComputerSpec,
    bus: LinkId,
    parts: Seq<NodeId>,
)
    requires
        crate::templates::computer_built(before, after, root, name, spec, bus, parts),
        crate::templates::all_new_to(issued, root, bus, parts),
        crate::templates::slots_differ(root, parts),
        is_free_for(before, root),
        forall|i: int| 0 <= i < parts.len() ==> is_free_for(before, #[trigger] parts[i]),
    ensures
        forall|i: int|
            0 <= i < parts.len() ==> {
                let part = #[trigger] parts[i];
                let called = after.network.nodes[part].name;
                &&& after.logics.contains_key(part)
                &&& called == "net-scan"@ ==> after.logics[part] == BehaviourView::Scanner(40)
                    && after.logics[part].kind() == "scanner"@
                &&& called != "net-scan"@ ==> after.logics[part] == BehaviourView::Responder
                    && after.logics[part].kind() == "responder"@
            },
        after.logics.contains_key(root),
        after.logics[root] == BehaviourView::Kernel(
            KernelView {
                promiscuous: spec.hardware@.contains(HardwareTag::PromiscuousNic),
                sniffed: 0,
            },
        ),
        after.logics[root].kind() == "kernel"@,
        forall|n: NodeId| #[trigger]
            before.network.nodes.contains_key(n) ==> after.logics.contains_key(n)
                == before.logics.contains_key(n) && (before.logics.contains_key(n)
                ==> after.logics[n] == before.logics[n]),
{
    law_computers_have_their_parts(before, after, root, name, spec, bus, parts);
    let apps = spec.apps@;
    let with_parts = crate::templates::with_part_logics(before.logics, parts, apps);
    let kernel = BehaviourView::Kernel(
        KernelView {
            promiscuous: spec.hardware@.contains(HardwareTag::PromiscuousNic),
            sniffed: 0,
        },
    );
    assert forall|i: int| 0 <= i < parts.len() implies {
        let part = #[trigger] parts[i];
        let called = after.network.nodes[part].name;
        &&& after.logics.contains_key(part)
        &&& called == "net-scan"@ ==> after.logics[part] == BehaviourView::Scanner(40)
        &&& called != "net-scan"@ ==> after.logics[part] == BehaviourView::Responder
    } by {
        let part = parts[i];
        assert(is_free_for(before, part));
        lemma_part_has_logic(before.logics, parts, apps, i);
        assert(!crate::ids::same_slot(part, root));
        lemma_entered_elsewhere(with_parts, root, kernel, part);
        if i < 5 {
            let names = crate::computer::service_names();
            crate::computer::law_app_names_are_distinct(AppKind::NetScan, AppKind::NetScan);
            assert(names.contains(names[i]));
        } else {
            crate::computer::law_app_names_are_distinct(apps[i - 5], AppKind::NetScan);
        }
    }
    assert forall|i: int| 0 <= i < parts.len() implies !crate::ids::same_slot(
        root,
        #[trigger] parts[i],
    ) by {
        assert(!crate::ids::same_slot(parts[i], root));
    }
    lemma_parts_elsewhere(before.logics, parts, apps, root);
    lemma_entered(with_parts, root, kernel);
    assert forall|n: NodeId| #[trigger]
        before.network.nodes.contains_key(n) implies after.logics.contains_key(n)
        == before.logics.contains_key(n) && (before.logics.contains_key(n) ==> after.logics[n]
        == before.logics[n]) by {
        assert forall|i: int| 0 <= i < parts.len() implies !crate::ids::same_slot(
            n,
            #[trigger] parts[i],
        ) by {
            assert(crate::templates::own_slot(before.network, parts[i]));
        }
        lemma_parts_elsewhere(before.logics, parts, apps, n);
        lemma_entered_elsewhere(with_parts, root, kernel, n);
    }
}

/// A computer can be built if and only if its name is valid, nothing inside it goes by that name,
/// and no app is asked for twice.
pub proof fn law_which_computers_can_be_built(name: Seq<char>, apps: Seq<AppKind>)
    ensures
        ({
            let inside = name == "login-manager"@ || name == "registry"@ || name == "desktop"@
                || name == "hid-serv"@ || name == "drive-bay"@ || exists|i: int|
                0 <= i < apps.len() && app_name(#[trigger] apps[i]) == name;
            let error = crate::templates::computer_error(name, apps);
            &&& error is None <==> crate::graph::valid_name(name) && !inside
                && apps.no_duplicates()
            &&& !crate::graph::valid_name(name) ==> error == Some(
                TemplateErrorView::Network(NetworkError::InvalidName),
            )
            &&& crate::graph::valid_name(name) && inside ==> error == Some(
                TemplateErrorView::NameUsedInside(name),
            )
            &&& crate::graph::valid_name(name) && !inside && !apps.no_duplicates() ==> (error
                matches Some(TemplateErrorView::AppInstalledTwice(app)) && exists|
                i: int,
                j: int,
            |
                0 <= i < j < apps.len() && #[trigger] apps[i] == app && #[trigger] apps[j] == app)
        }),
{
    let names = crate::templates::part_names(apps);
    let services = crate::computer::service_names();
    assert(services.len() == 5);
    let inside = name == "login-manager"@ || name == "registry"@ || name == "desktop"@ || name
        == "hid-serv"@ || name == "drive-bay"@ || exists|i: int|
        0 <= i < apps.len() && app_name(#[trigger] apps[i]) == name;
    assert(names.contains(name) <==> inside) by {
        if names.contains(name) {
            let i = choose|i: int| 0 <= i < names.len() && names[i] == name;
            if i >= 5 {
                assert(app_name(apps[i - 5]) == name);
            } else {
                assert(i == 0 || i == 1 || i == 2 || i == 3 || i == 4);
            }
        }
        if exists|i: int| 0 <= i < apps.len() && app_name(#[trigger] apps[i]) == name {
            let i = choose|i: int| 0 <= i < apps.len() && app_name(#[trigger] apps[i]) == name;
            assert(names[5 + i] == name);
        }
        assert(names[0] == services[0] && names[1] == services[1] && names[2] == services[2]
            && names[3] == services[3] && names[4] == services[4]);
    }
    lemma_repeat(apps);
}

/// An app that is listed twice.
proof fn lemma_repeat(apps: Seq<AppKind>)
    ensures
        match crate::templates::first_repeat(apps) {
            None => apps.no_duplicates(),
            Some(app) => exists|i: int, j: int|
                0 <= i < j < apps.len() && #[trigger] apps[i] == app && #[trigger] apps[j] == app,
        },
    decreases apps.len(),
{
    if apps.len() > 0 {
        let front = apps.drop_last();
        lemma_repeat(front);
        let n = apps.len() - 1;
        match crate::templates::first_repeat(front) {
            Some(app) => {
                let (i, j) = choose|i: int, j: int|
                    0 <= i < j < front.len() && #[trigger] front[i] == app && #[trigger] front[j]
                        == app;
                assert(apps[i] == app && apps[j] == app);
            },
            None => {
                if front.contains(apps.last()) {
                    let i = front.index_of(apps.last());
                    assert(front[i] == apps[i]);
                    assert(apps[i] == apps.last() && apps[n] == apps.last());
                } else {
                    assert forall|i: int, j: int|
                        0 <= i < apps.len() && 0 <= j < apps.len() && i != j implies apps[i]
                        != apps[j] by {
                        if i < n && j < n {
                            assert(front[i] != front[j]);
                        } else if i < n {
                            assert(front.contains(front[i]));
                        } else {
                            assert(front.contains(front[j]));
                        }
                    }
                }
            },
        }
    }
}

/// An NPC that was just built is a node of the kind `npc`, attached to nothing yet, with a logic
/// of its own that follows its spec from the start: it has no goal yet and its first line comes
/// next. It can be built if and only if its name is valid and its spec is sound.
pub proof fn law_npcs_are_built_to_spec(
    before: WorldView,
    node: NodeId,
    name: Seq<char>,
    spec: NpcSpecView,
)
    requires
        !before.network.nodes.contains_key(node),
        crate::ids::is_key(node.spec_raw()),
        !crate::ids::is_null(node.spec_raw()),
        is_free_for(before, node),
    ensures
        ({
            let after = crate::templates::with_npc(before, node, name, spec);
            &&& after.network.nodes == before.network.nodes.insert(
                node,
                NodeView {
                    name,
                    kind: "npc"@,
                    parent: None,
                    children: Seq::empty(),
                    internal_links: Seq::empty(),
                    subscriptions: Seq::empty(),
                },
            )
            &&& after.network.links == before.network.links
            &&& after.logics.contains_key(node)
            &&& after.logics[node] == BehaviourView::Npc(
                NpcView { spec, goal: None, next_line: 0 },
            )
            &&& after.logics[node].kind() == "npc"@
        }),
        crate::templates::npc_error(name, spec) is None <==> crate::graph::valid_name(name)
            && spec.problem() is None,
{
    lemma_entered(
        before.logics,
        node,
        BehaviourView::Npc(NpcView { spec, goal: None, next_line: 0 }),
    );
}

/// A kernel sends nothing for a packet that it overhears. It counts it, and makes a note of the
/// first, the second, the fourth, the eighth and so on.
pub proof fn law_kernels_only_note_what_they_overhear(
    kernel: KernelView,
    c: ContextView,
    packet: PacketView,
    n: nat,
)
    requires
        c.accepted_by == Some(AcceptRule::Forced),
        kernel.sniffed < u64::MAX,
    ensures
        ({
            let out = BehaviourView::Kernel(kernel).reaction(CallView::Received(packet), c);
            let count = (kernel.sniffed + 1) as u64;
            &&& out.crash is None
            &&& out.behaviour == BehaviourView::Kernel(KernelView { sniffed: count, ..kernel })
            &&& out.context.queue == c.queue
            &&& out.context.network == c.network
            &&& count == vstd::arithmetic::power2::pow2(n) ==> out.context == c.noted(
                "sniffed "@ + crate::text::decimal_text(count as nat) + " packets (latest: "@
                    + packet.event.kind + " → "@ + crate::route::route_text(packet.to) + ")"@,
            )
            &&& (forall|k: nat| count != #[trigger] vstd::arithmetic::power2::pow2(k))
                ==> out.context == c
        }),
{
    let count = (kernel.sniffed + 1) as nat;
    if count == vstd::arithmetic::power2::pow2(n) {
        lemma_power(n);
    }
    if crate::computer::power_of_two(count) {
        let k = lemma_is_power(count);
        assert(count == vstd::arithmetic::power2::pow2(k));
    }
}

proof fn lemma_power(n: nat)
    ensures
        crate::computer::power_of_two(vstd::arithmetic::power2::pow2(n)),
    decreases n,
{
    if n == 0 {
        vstd::arithmetic::power2::lemma2_to64();
    } else {
        let m = (n - 1) as nat;
        lemma_power(m);
        vstd::arithmetic::power2::lemma_pow2_unfold(n);
        vstd::arithmetic::power2::lemma_pow2_pos(m);
        let p = vstd::arithmetic::power2::pow2(m);
        assert(vstd::arithmetic::power2::pow2(n) == 2 * p);
        assert((2 * p) % 2 == 0 && (2 * p) / 2 == p);
    }
}

proof fn lemma_is_power(n: nat) -> (k: nat)
    requires
        crate::computer::power_of_two(n),
    ensures
        n == vstd::arithmetic::power2::pow2(k),
    decreases n,
{
    if n == 1 {
        vstd::arithmetic::power2::lemma2_to64();
        0
    } else {
        let k = lemma_is_power(n / 2);
        vstd::arithmetic::power2::lemma_pow2_unfold(k + 1);
        k + 1
    }
}

/// The templates offer the logics `kernel` and `npc`, each of the kind it is asked for by, and no
/// other. A kernel by itself overhears nothing. An NPC by itself is an ordinary citizen: a
/// civilian who sleeps, works from tick 60 on and relaxes from tick 180 on, in days of 240 ticks,
/// and has two things to say; a spec that is sound.
pub proof fn law_templates_offer_their_logics(kind: Seq<char>)
    ensures
        crate::templates::template_logic(kind) is Some <==> kind == "kernel"@ || kind == "npc"@,
        crate::templates::template_logic(kind) matches Some(b) ==> b.kind() == kind,
        crate::templates::template_logic("kernel"@) == Some(
            BehaviourView::Kernel(KernelView { promiscuous: false, sniffed: 0 }),
        ),
        ({
            let spec = NpcSpecView::ordinary();
            &&& crate::templates::template_logic("npc"@) == Some(
                BehaviourView::Npc(NpcView { spec, goal: None, next_line: 0 }),
            )
            &&& spec.problem() is None
            &&& spec.role == crate::npc::NpcRole::Civilian
            &&& spec.day_length == 240
            &&& spec.schedule == seq![(0u64, "sleep"@), (60u64, "work"@), (180u64, "relax"@)]
            &&& spec.lines == seq!["Hello."@, "Nice weather today."@]
        }),
{
    reveal_strlit("kernel");
    reveal_strlit("npc");
    assert("kernel"@.len() == 6 && "npc"@.len() == 3);
}

} // verus!
