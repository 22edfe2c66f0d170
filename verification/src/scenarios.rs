//! Test networks, as blueprints: lists of links to lay and devices to place, each naming the
//! earlier steps it builds on. A host follows a blueprint step by step.

use vstd::prelude::*;
use vstd::string::*;

use crate::text::{decimal, joined, same_text};

verus! {

/// What a [`Step`] says.
#[verifier::ext_equal]
#[allow(inconsistent_fields)]
pub enum StepView {
    Link { owner: Option<int>, name: Seq<char> },
    Device {
        parent: Option<int>,
        name: Seq<char>,
        kind: Seq<char>,
        links: Seq<int>,
        logic: Seq<char>,
    },
}

/// One step of a blueprint. Steps refer to earlier ones by their place in the blueprint, and to
/// the root by nothing.
#[derive(Debug)]
#[allow(inconsistent_fields)]
pub enum Step {
    /// Lay a link inside `owner`.
    Link {
        /// The node it is internal to.
        owner: Option<usize>,
        /// Its name.
        name: String,
    },
    /// Nest a node in `parent` and attach it to each of `links` (the first also becomes one of
    /// `parent`'s internal links if it is not already), with a logic.
    Device {
        /// The node it is nested in.
        parent: Option<usize>,
        /// Its name.
        name: String,
        /// What it is.
        kind: String,
        /// The links it is attached to.
        links: Vec<usize>,
        /// The logic it runs.
        logic: String,
    },
}

/// The place in the blueprint.
pub open spec fn place(at: Option<usize>) -> Option<int> {
    match at {
        Some(i) => Some(i as int),
        None => None,
    }
}

/// The places in the blueprint.
pub open spec fn places(links: Seq<usize>) -> Seq<int> {
    links.map_values(|i: usize| i as int)
}

impl View for Step {
    type V = StepView;

    open spec fn view(&self) -> StepView {
        match *self {
            Step::Link { owner, name } => StepView::Link { owner: place(owner), name: name@ },
            Step::Device { parent, name, kind, links, logic } => StepView::Device {
                parent: place(parent),
                name: name@,
                kind: kind@,
                links: places(links@),
                logic: logic@,
            },
        }
    }
}

/// The steps' contents.
pub open spec fn step_views(steps: Seq<Step>) -> Seq<StepView> {
    steps.map_values(|s: Step| s@)
}

/// The services every computer runs, with what they are.
pub const COMPUTER_SERVICES: [(&'static str, &'static str); 5] = [
    ("login-manager", "service"),
    ("desktop", "service"),
    ("registry", "service"),
    ("file-system", "service"),
    ("net-gateway", "gateway"),
];

/// A link in a blueprint.
pub open spec fn link(owner: Option<int>, name: Seq<char>) -> StepView {
    StepView::Link { owner, name }
}

/// A device in a blueprint.
pub open spec fn device(
    parent: Option<int>,
    name: Seq<char>,
    kind: Seq<char>,
    links: Seq<int>,
    logic: Seq<char>,
) -> StepView {
    StepView::Device { parent, name, kind, links, logic }
}

/// A blueprint with the first `n` services of a computer.
pub open spec fn with_services(plan: Seq<StepView>, pc: int, ipc: int, n: nat) -> Seq<StepView>
    decreases n,
{
    if n == 0 {
        plan
    } else {
        let service = COMPUTER_SERVICES[n - 1];
        with_services(plan, pc, ipc, (n - 1) as nat).push(
            device(Some(pc), service.0@, service.1@, seq![ipc], "responder"@),
        )
    }
}

/// A blueprint with a computer's apps.
pub open spec fn with_apps(
    plan: Seq<StepView>,
    pc: int,
    ipc: int,
    apps: Seq<Seq<char>>,
) -> Seq<StepView>
    decreases apps.len(),
{
    if apps.len() == 0 {
        plan
    } else {
        let app = apps.last();
        with_apps(plan, pc, ipc, apps.drop_last()).push(
            device(
                Some(pc),
                app,
                "app"@,
                seq![ipc],
                if app == "net-scan"@ {
                    "scanner"@
                } else {
                    "responder"@
                },
            ),
        )
    }
}

/// A blueprint with a computer: the standard services and apps, all on the computer's own bus.
/// The computer is a gateway, everything inside answers pings, and an app called `net-scan` scans
/// the computer's networks.
pub open spec fn with_computer(
    plan: Seq<StepView>,
    parent: Option<int>,
    name: Seq<char>,
    links: Seq<int>,
    apps: Seq<Seq<char>>,
) -> Seq<StepView> {
    let pc = plan.len() as int;
    let ipc = pc + 1;
    let shell = plan.push(device(parent, name, "computer"@, links, "gateway"@)).push(
        link(Some(pc), "ipc"@),
    );
    with_apps(with_services(shell, pc, ipc, 5), pc, ipc, apps)
}

/// The texts' contents.
pub open spec fn str_views(texts: Seq<&str>) -> Seq<Seq<char>> {
    texts.map_values(|s: &str| s@)
}

/// A list of links to lay and devices to place.
#[derive(Debug)]
pub struct Blueprint {
    steps: Vec<Step>,
}

impl View for Blueprint {
    type V = Seq<StepView>;

    closed spec fn view(&self) -> Seq<StepView> {
        step_views(self.steps@)
    }
}

/// A copy of a list of places.
fn copy_places(links: &[usize]) -> (r: Vec<usize>)
    ensures
        r@ == links@,
{
    let mut out: Vec<usize> = Vec::new();
    let mut i: usize = 0;
    while i < links.len()
        invariant
            i <= links.len(),
            out@ == links@.take(i as int),
        decreases links.len() - i,
    {
        out.push(links[i]);
        i += 1;
        assert(out@ =~= links@.take(i as int));
    }
    assert(links@.take(i as int) =~= links@);
    out
}

impl Blueprint {
    /// Nothing to build yet.
    pub fn new() -> (r: Self)
        ensures
            r@ == Seq::<StepView>::empty(),
    {
        let r = Blueprint { steps: Vec::new() };
        assert(r@ =~= Seq::<StepView>::empty());
        r
    }

    /// The steps, in order.
    pub fn steps(&self) -> (r: &Vec<Step>)
        ensures
            step_views(r@) == self@,
    {
        &self.steps
    }

    /// Lays a link inside `owner`. Returns its place.
    pub fn link(&mut self, owner: Option<usize>, name: &str) -> (r: usize)
        ensures
            r == old(self)@.len(),
            final(self)@ == old(self)@.push(link(place(owner), name@)),
    {
        let at: usize = self.steps.len();
        let step = Step::Link { owner, name: name.to_owned() };
        let ghost view = step@;
        self.steps.push(step);
        assert(self@ =~= old(self)@.push(view));
        at
    }

    /// Nests a device in `parent` and attaches it to `links`. Returns its place.
    pub fn device(
        &mut self,
        parent: Option<usize>,
        name: &str,
        kind: &str,
        links: &[usize],
        logic: &str,
    ) -> (r: usize)
        ensures
            r == old(self)@.len(),
            final(self)@ == old(self)@.push(
                device(place(parent), name@, kind@, places(links@), logic@),
            ),
    {
        let at: usize = self.steps.len();
        let step = Step::Device {
            parent,
            name: name.to_owned(),
            kind: kind.to_owned(),
            links: copy_places(links),
            logic: logic.to_owned(),
        };
        let ghost view = step@;
        self.steps.push(step);
        assert(self@ =~= old(self)@.push(view));
        at
    }

    /// Places a computer with the standard services and `apps`. Returns its place and that of its
    /// bus.
    pub fn computer(
        &mut self,
        parent: Option<usize>,
        name: &str,
        links: &[usize],
        apps: &[&str],
    ) -> (r: (usize, usize))
        ensures
            r.0 == old(self)@.len(),
            r.1 == old(self)@.len() + 1,
            final(self)@ == with_computer(
                old(self)@,
                place(parent),
                name@,
                places(links@),
                str_views(apps@),
            ),
    {
        let pc = self.device(parent, name, "computer", links, "gateway");
        let ipc = self.link(Some(pc), "ipc");
        let bus: [usize; 1] = [ipc];
        let ghost shell = self@;
        assert(places(bus@) =~= seq![ipc as int]);
        let mut i: usize = 0;
        while i < 5
            invariant
                i <= 5,
                places(bus@) == seq![ipc as int],
                self@ == with_services(shell, pc as int, ipc as int, i as nat),
            decreases 5 - i,
        {
            let (service, kind) = COMPUTER_SERVICES[i];
            let _ = self.device(Some(pc), service, kind, bus.as_slice(), "responder");
            i += 1;
        }
        let ghost furnished = self@;
        let ghost names = str_views(apps@);
        let mut k: usize = 0;
        assert(names.take(0) =~= Seq::<Seq<char>>::empty());
        while k < apps.len()
            invariant
                k <= apps.len(),
                places(bus@) == seq![ipc as int],
                names == str_views(apps@),
                self@ == with_apps(furnished, pc as int, ipc as int, names.take(k as int)),
            decreases apps.len() - k,
        {
            let app = apps[k];
            proof {
                assert(names.take(k + 1).drop_last() =~= names.take(k as int));
                assert(names.take(k + 1).last() == app@);
            }
            let logic = if same_text(app, "net-scan") {
                "scanner"
            } else {
                "responder"
            };
            let _ = self.device(Some(pc), app, "app", bus.as_slice(), logic);
            k += 1;
        }
        assert(names.take(k as int) =~= names);
        (pc, ipc)
    }
}

// ---- The scenarios --------------------------------------------------------------------------

/// The scenarios, with what they show.
pub const SCENARIOS: [(&'static str, &'static str); 4] = [
    ("Office", "A small office: LAN, Wi-Fi, a server rack, the player's inventory, NPCs."),
    ("Single computer", "One computer with a full set of apps, one of them hosting a VM."),
    ("City block", "Eight buildings of networked computers: a few hundred nodes, deep nesting."),
    ("Mesh", "Thirty devices on ten shared links at one level, to stress the layout."),
];

/// The world's own links in the office.
pub open spec fn office_links() -> Seq<StepView> {
    seq![
        link(None, "office-lan"@),
        link(None, "office-wifi"@),
        link(None, "street-wifi"@),
        link(None, "phone-line"@),
        link(None, "isp-uplink"@),
        link(None, "--"@),
        link(None, "spare-cable"@),
    ]
}

/// The office: its links are steps 0 to 6.
pub open spec fn office_plan() -> Seq<StepView> {
    let a = office_links().push(
        device(None, "router"@, "router"@, seq![0, 1, 4], "beacon"@),
    ).push(device(None, "modem"@, "modem"@, seq![3, 4], "responder"@));
    let b = with_computer(a, None, "pc-reception"@, seq![0], seq!["mail"@, "calendar"@]);
    let c = with_computer(
        b,
        None,
        "pc-manager"@,
        seq![1],
        seq!["mail"@, "fileman"@, "net-scan"@],
    );
    let d = with_computer(c, None, "laptop"@, seq![1, 2], seq!["browser"@]);
    let rack = d.len() as int;
    let e = d.push(device(None, "server-rack"@, "rack"@, seq![0], "gateway"@)).push(
        link(Some(rack), "backplane"@),
    );
    let f = with_computer(e, Some(rack), "srv-files"@, seq![rack + 1], seq!["smb-share"@]);
    let g = with_computer(f, Some(rack), "srv-auth"@, seq![rack + 1], seq!["directory"@]);
    let h = with_computer(g, Some(rack), "srv-backup"@, seq![rack + 1], seq!["scheduler"@]);
    let player = h.len() as int + 1;
    h.push(device(None, "desk-phone"@, "phone"@, seq![3], "beacon"@)).push(
        device(None, "player"@, "player"@, seq![2], "gateway"@),
    ).push(link(Some(player), "⊙PAN"@)).push(
        device(Some(player), "inventory"@, "inventory"@, seq![player + 1], "gateway"@),
    ).push(link(Some(player + 2), "pocket"@)).push(
        device(Some(player + 2), "pager"@, "device"@, seq![player + 3], "responder"@),
    ).push(
        device(Some(player + 2), "rf-scanner"@, "device"@, seq![player + 3], "scanner"@),
    ).push(device(Some(player), "phone"@, "phone"@, seq![player + 1, 2], "beacon"@)).push(
        device(None, "npc-guard"@, "npc"@, seq![5], "beacon"@),
    ).push(device(None, "npc-cleaner"@, "npc"@, seq![5], "responder"@))
}

/// The world's own links in the office.
fn office_links_plan() -> (r: Blueprint)
    ensures
        r@ == office_links(),
{
    let mut b = Blueprint::new();
    let _ = b.link(None, "office-lan");
    let _ = b.link(None, "office-wifi");
    let _ = b.link(None, "street-wifi");
    let _ = b.link(None, "phone-line");
    let _ = b.link(None, "isp-uplink");
    let _ = b.link(None, "--");
    let _ = b.link(None, "spare-cable"); // Owned but unused, to show an empty link.
    assert(b@ =~= office_links());
    b
}

/// A small office: LAN, Wi-Fi, a server rack, the player's inventory, NPCs.
pub fn office() -> (r: Blueprint)
    ensures
        r@ == office_plan(),
{
    let mut b = office_links_plan();
    let (lan, wifi, street, phone_line, isp, npc_range): (
        usize,
        usize,
        usize,
        usize,
        usize,
        usize,
    ) = (0, 1, 2, 3, 4, 5);
    let on_router = [lan, wifi, isp];
    let on_modem = [phone_line, isp];
    let on_lan = [lan];
    let on_wifi = [wifi];
    let on_laptop = [wifi, street];
    proof {
        assert(places(on_router@) =~= seq![0int, 1, 4]);
        assert(places(on_modem@) =~= seq![3int, 4]);
        assert(places(on_lan@) =~= seq![0int]);
        assert(places(on_wifi@) =~= seq![1int]);
        assert(places(on_laptop@) =~= seq![1int, 2]);
    }
    let _ = b.device(None, "router", "router", on_router.as_slice(), "beacon");
    let _ = b.device(None, "modem", "modem", on_modem.as_slice(), "responder");
    let apps = ["mail", "calendar"];
    assert(str_views(apps@) =~= seq!["mail"@, "calendar"@]);
    let _ = b.computer(None, "pc-reception", on_lan.as_slice(), apps.as_slice());
    let apps = ["mail", "fileman", "net-scan"];
    assert(str_views(apps@) =~= seq!["mail"@, "fileman"@, "net-scan"@]);
    let _ = b.computer(None, "pc-manager", on_wifi.as_slice(), apps.as_slice());
    let apps = ["browser"];
    assert(str_views(apps@) =~= seq!["browser"@]);
    let _ = b.computer(None, "laptop", on_laptop.as_slice(), apps.as_slice());

    // A rack groups servers behind its own backplane, one level deeper.
    let rack = b.device(None, "server-rack", "rack", on_lan.as_slice(), "gateway");
    let backplane = b.link(Some(rack), "backplane");
    let on_backplane = [backplane];
    assert(places(on_backplane@) =~= seq![rack + 1]);
    let apps = ["smb-share"];
    assert(str_views(apps@) =~= seq!["smb-share"@]);
    let _ = b.computer(Some(rack), "srv-files", on_backplane.as_slice(), apps.as_slice());
    let apps = ["directory"];
    assert(str_views(apps@) =~= seq!["directory"@]);
    let _ = b.computer(Some(rack), "srv-auth", on_backplane.as_slice(), apps.as_slice());
    let apps = ["scheduler"];
    assert(str_views(apps@) =~= seq!["scheduler"@]);
    let _ = b.computer(Some(rack), "srv-backup", on_backplane.as_slice(), apps.as_slice());

    let on_phone_line = [phone_line];
    let on_street = [street];
    assert(places(on_phone_line@) =~= seq![3int]);
    assert(places(on_street@) =~= seq![2int]);
    let _ = b.device(None, "desk-phone", "phone", on_phone_line.as_slice(), "beacon");

    // The player carries a personal-area network: an inventory with devices inside it.
    let player = b.device(None, "player", "player", on_street.as_slice(), "gateway");
    let pan = b.link(Some(player), "⊙PAN");
    let on_pan = [pan];
    assert(places(on_pan@) =~= seq![player + 1]);
    let inventory = b.device(
        Some(player),
        "inventory",
        "inventory",
        on_pan.as_slice(),
        "gateway",
    );
    let pocket = b.link(Some(inventory), "pocket");
    let in_pocket = [pocket];
    assert(places(in_pocket@) =~= seq![player + 3]);
    let _ = b.device(Some(inventory), "pager", "device", in_pocket.as_slice(), "responder");
    let _ = b.device(Some(inventory), "rf-scanner", "device", in_pocket.as_slice(), "scanner");
    let on_phone = [pan, street];
    assert(places(on_phone@) =~= seq![player + 1, 2]);
    let _ = b.device(Some(player), "phone", "phone", on_phone.as_slice(), "beacon");

    let in_range = [npc_range];
    assert(places(in_range@) =~= seq![5int]);
    let _ = b.device(None, "npc-guard", "npc", in_range.as_slice(), "beacon");
    let _ = b.device(None, "npc-cleaner", "npc", in_range.as_slice(), "responder");
    b
}

/// One computer; its bus is step 2.
pub open spec fn single_computer_plan() -> Seq<StepView> {
    let a = with_computer(
        seq![link(None, "wifi-1"@)],
        None,
        "workstation"@,
        seq![0],
        seq!["fileman"@, "terminal"@, "browser"@, "mail"@, "net-scan"@],
    );
    let host = a.len() as int;
    with_computer(
        a.push(device(Some(1), "vm-host"@, "app"@, seq![2], "gateway"@)).push(
            link(Some(host), "vm-net"@),
        ),
        Some(host),
        "vm-guest"@,
        seq![host + 1],
        seq!["legacy-db"@, "net-scan"@],
    )
}

/// One computer with a full set of apps, one of them hosting a VM.
pub fn single_computer() -> (r: Blueprint)
    ensures
        r@ == single_computer_plan(),
{
    let mut b = Blueprint::new();
    let wifi = b.link(None, "wifi-1");
    assert(b@ =~= seq![link(None, "wifi-1"@)]);
    let on_wifi = [wifi];
    assert(places(on_wifi@) =~= seq![0int]);
    let apps = ["fileman", "terminal", "browser", "mail", "net-scan"];
    assert(str_views(apps@) =~= seq!["fileman"@, "terminal"@, "browser"@, "mail"@, "net-scan"@]);
    let (pc, ipc) = b.computer(None, "workstation", on_wifi.as_slice(), apps.as_slice());
    // An app that is itself a container: a VM host with a whole computer inside it.
    let on_ipc = [ipc];
    assert(places(on_ipc@) =~= seq![2int]);
    let host = b.device(Some(pc), "vm-host", "app", on_ipc.as_slice(), "gateway");
    let vm_net = b.link(Some(host), "vm-net");
    let on_vm_net = [vm_net];
    assert(places(on_vm_net@) =~= seq![host + 1]);
    let apps = ["legacy-db", "net-scan"];
    assert(str_views(apps@) =~= seq!["legacy-db"@, "net-scan"@]);
    let _ = b.computer(Some(host), "vm-guest", on_vm_net.as_slice(), apps.as_slice());
    b
}

/// A number in at least two digits.
pub open spec fn two_digits(n: nat) -> Seq<char> {
    if n < 10 {
        "0"@ + crate::text::decimal_text(n)
    } else {
        crate::text::decimal_text(n)
    }
}

/// A number in at least two digits.
pub fn two_digit_text(n: u64) -> (r: String)
    ensures
        r@ == two_digits(n as nat),
{
    if n < 10 {
        joined("0", decimal(n).as_str())
    } else {
        decimal(n)
    }
}

/// A building's first `floors` computers, one per floor.
pub open spec fn with_floors(
    plan: Seq<StepView>,
    building: nat,
    at: int,
    floors: nat,
) -> Seq<StepView>
    decreases floors,
{
    if floors == 0 {
        plan
    } else {
        with_computer(
            with_floors(plan, building, at, (floors - 1) as nat),
            Some(at),
            "pc-"@ + crate::text::decimal_text(building) + two_digits(floors),
            seq![at + 1],
            if floors == 1 {
                seq!["mail"@, "net-scan"@]
            } else {
                seq!["mail"@]
            },
        )
    }
}

/// The first `n` buildings of a city block, half of them on each street.
pub open spec fn with_buildings(plan: Seq<StepView>, n: nat) -> Seq<StepView>
    decreases n,
{
    if n == 0 {
        plan
    } else {
        let before = with_buildings(plan, (n - 1) as nat);
        let at = before.len() as int;
        let street: int = if n <= 4 {
            0
        } else {
            1
        };
        let shell = before.push(
            device(
                None,
                "building-"@ + crate::text::decimal_text(n),
                "building"@,
                seq![2, street],
                "gateway"@,
            ),
        ).push(link(Some(at), "lan"@));
        with_floors(shell, n, at, 6)
    }
}

/// The world's own links in a city block.
pub open spec fn city_links() -> Seq<StepView> {
    seq![
        link(None, "street-wifi-a"@),
        link(None, "street-wifi-b"@),
        link(None, "fibre"@),
    ]
}

/// A building's computers, one per floor.
fn add_floors(b: &mut Blueprint, building: u64, at: usize, lan: usize)
    requires
        lan == at + 1,
    ensures
        final(b)@ == with_floors(old(b)@, building as nat, at as int, 6),
{
    let on_lan = [lan];
    assert(places(on_lan@) =~= seq![at + 1]);
    let with_scanner = ["mail", "net-scan"];
    let plain = ["mail"];
    assert(str_views(with_scanner@) =~= seq!["mail"@, "net-scan"@]);
    assert(str_views(plain@) =~= seq!["mail"@]);
    let mut floor: u64 = 0;
    while floor < 6
        invariant
            floor <= 6,
            places(on_lan@) == seq![at + 1],
            str_views(with_scanner@) == seq!["mail"@, "net-scan"@],
            str_views(plain@) == seq!["mail"@],
            b@ == with_floors(old(b)@, building as nat, at as int, floor as nat),
        decreases 6 - floor,
    {
        let mut name = joined("pc-", decimal(building).as_str());
        name.append(two_digit_text(floor + 1).as_str());
        let apps: &[&str] = if floor == 0 {
            with_scanner.as_slice()
        } else {
            plain.as_slice()
        };
        let _ = b.computer(Some(at), name.as_str(), on_lan.as_slice(), apps);
        floor += 1;
    }
}

/// Eight buildings of networked computers: a few hundred nodes, deep nesting.
pub fn city_block() -> (r: Blueprint)
    ensures
        r@ == with_buildings(city_links(), 8),
{
    let mut b = Blueprint::new();
    let street_a = b.link(None, "street-wifi-a");
    let street_b = b.link(None, "street-wifi-b");
    let fibre = b.link(None, "fibre");
    assert(b@ =~= city_links());
    let mut n: u64 = 0;
    while n < 8
        invariant
            n <= 8,
            street_a == 0,
            street_b == 1,
            fibre == 2,
            b@ == with_buildings(city_links(), n as nat),
        decreases 8 - n,
    {
        let street: usize = if n < 4 {
            street_a
        } else {
            street_b
        };
        let uplinks = [fibre, street];
        proof {
            let s: int = if n + 1 <= 4 {
                0
            } else {
                1
            };
            assert(places(uplinks@) =~= seq![2int, s]);
        }
        let name = joined("building-", decimal(n + 1).as_str());
        let at = b.device(None, name.as_str(), "building", uplinks.as_slice(), "gateway");
        let lan = b.link(Some(at), "lan");
        add_floors(&mut b, n + 1, at, lan);
        n += 1;
    }
    b
}

/// The next state of the mesh's number generator.
pub open spec fn next_seed(seed: u32) -> u32 {
    seed.wrapping_mul(1_103_515_245).wrapping_add(12_345)
}

/// The number below `n` drawn in a state of the generator.
pub open spec fn drawn(seed: u32, n: int) -> int {
    (seed >> 16) as int % n
}

/// The next state of the mesh's number generator.
fn advance(seed: u32) -> (r: u32)
    ensures
        r == next_seed(seed),
{
    seed.wrapping_mul(1_103_515_245).wrapping_add(12_345)
}

/// Which of the ten links are drawn in `count` goes from `seed` on, and the generator after that.
pub open spec fn picks(seed: u32, count: nat) -> (Set<int>, u32)
    decreases count,
{
    if count == 0 {
        (Set::empty(), seed)
    } else {
        let (before, s) = picks(seed, (count - 1) as nat);
        (before.insert(drawn(next_seed(s), 10)), next_seed(s))
    }
}

/// Those of the first `n` numbers that are in `chosen`.
pub open spec fn ascending(chosen: Set<int>, n: nat) -> Seq<int>
    decreases n,
{
    if n == 0 {
        Seq::empty()
    } else {
        let before = ascending(chosen, (n - 1) as nat);
        if chosen.contains(n - 1) {
            before.push(n - 1)
        } else {
            before
        }
    }
}

/// The first `n` links of the mesh.
pub open spec fn mesh_links(n: nat) -> Seq<StepView>
    decreases n,
{
    if n == 0 {
        Seq::empty()
    } else {
        mesh_links((n - 1) as nat).push(
            link(None, "net-"@ + crate::text::decimal_text((n - 1) as nat)),
        )
    }
}

/// The mesh's first `n` devices, each on one to three links drawn at random but always the same,
/// and the generator after that.
pub open spec fn mesh_devices(n: nat) -> (Seq<StepView>, u32)
    decreases n,
{
    if n == 0 {
        (mesh_links(10), 0x5EED)
    } else {
        let (before, seed) = mesh_devices((n - 1) as nat);
        let s = next_seed(seed);
        let (chosen, after) = picks(s, (1 + drawn(s, 3)) as nat);
        (
            before.push(
                device(
                    None,
                    "device-"@ + two_digits((n - 1) as nat),
                    "device"@,
                    ascending(chosen, 10),
                    if (n - 1) % 6 == 0 {
                        "beacon"@
                    } else {
                        "responder"@
                    },
                ),
            ),
            after,
        )
    }
}

/// Marks the links drawn in `count` goes. Returns the generator after that.
fn draw_links(seed: u32, count: u32, chosen: &mut Vec<bool>) -> (r: u32)
    requires
        old(chosen)@ == Seq::new(10, |i: int| false),
    ensures
        final(chosen)@.len() == 10,
        crate::checklist::marked(final(chosen)@) == picks(seed, count as nat).0,
        r == picks(seed, count as nat).1,
{
    let mut s: u32 = seed;
    let mut i: u32 = 0;
    assert(crate::checklist::marked(chosen@) =~= Set::<int>::empty());
    while i < count
        invariant
            i <= count,
            chosen@.len() == 10,
            crate::checklist::marked(chosen@) == picks(seed, i as nat).0,
            s == picks(seed, i as nat).1,
        decreases count - i,
    {
        s = advance(s);
        let at: usize = ((s >> 16) % 10) as usize;
        let ghost before = crate::checklist::marked(chosen@);
        chosen.set(at, true);
        assert(crate::checklist::marked(chosen@) =~= before.insert(at as int));
        i += 1;
    }
    s
}

/// The marked places, in order.
fn marked_places(chosen: &Vec<bool>) -> (r: Vec<usize>)
    requires
        chosen@.len() == 10,
    ensures
        places(r@) == ascending(crate::checklist::marked(chosen@), 10),
{
    let mut out: Vec<usize> = Vec::new();
    let mut i: usize = 0;
    assert(places(out@) =~= Seq::<int>::empty());
    while i < 10
        invariant
            i <= 10,
            chosen@.len() == 10,
            places(out@) == ascending(crate::checklist::marked(chosen@), i as nat),
        decreases 10 - i,
    {
        if chosen[i] {
            let ghost before = places(out@);
            out.push(i);
            assert(places(out@) =~= before.push(i as int));
        }
        i += 1;
    }
    out
}

/// Thirty devices on ten shared links at one level, to stress the layout.
pub fn mesh() -> (r: Blueprint)
    ensures
        r@ == mesh_devices(30).0,
{
    let mut b = Blueprint::new();
    let mut l: u64 = 0;
    while l < 10
        invariant
            l <= 10,
            b@ == mesh_links(l as nat),
        decreases 10 - l,
    {
        let _ = b.link(None, joined("net-", decimal(l).as_str()).as_str());
        l += 1;
    }
    let mut seed: u32 = 0x5EED;
    let mut i: u64 = 0;
    while i < 30
        invariant
            i <= 30,
            b@ == mesh_devices(i as nat).0,
            seed == mesh_devices(i as nat).1,
        decreases 30 - i,
    {
        let s = advance(seed);
        let count: u32 = 1 + (s >> 16) % 3;
        let mut chosen: Vec<bool> = vec![
            false, false, false, false, false, false, false, false, false, false,
        ];
        assert(chosen@ =~= Seq::new(10, |i: int| false));
        seed = draw_links(s, count, &mut chosen);
        let mine = marked_places(&chosen);
        let logic = if i % 6 == 0 {
            "beacon"
        } else {
            "responder"
        };
        let name = joined("device-", two_digit_text(i).as_str());
        let _ = b.device(None, name.as_str(), "device", mine.as_slice(), logic);
        i += 1;
    }
    b
}

/// The blueprint of the scenario at a place in [`SCENARIOS`].
pub fn scenario(i: usize) -> (r: Blueprint)
    requires
        i < 4,
    ensures
        r@ == (match i {
            0 => office_plan(),
            1 => single_computer_plan(),
            2 => with_buildings(city_links(), 8),
            _ => mesh_devices(30).0,
        }),
{
    match i {
        0 => office(),
        1 => single_computer(),
        2 => city_block(),
        _ => mesh(),
    }
}

} // verus!
