//! Computers: the catalogue of apps and hardware, and the kernel that is a computer's gateway.

use vstd::prelude::*;
use vstd::string::*;

use crate::behaviour::BehaviourView;
use crate::builtin::Gateway;
use crate::logic::{AcceptRule, Context, ControllerLogic, LogicRules, LogicState, Relaying};
use crate::packet::Packet;
use crate::text::{decimal, same_text};

verus! {

/// The services every computer has, with what they are for. They are what "being a computer"
/// means, not options.
pub const BASE_SERVICES: [(&'static str, &'static str); 5] = [
    ("login-manager", "session gate: is anyone logged in"),
    ("registry", "the machine's settings"),
    ("desktop", "the desktop session and taskbar"),
    ("hid-serv", "input routing and window focus"),
    ("drive-bay", "storage: the boot disk and files"),
];

/// The names of the services every computer has.
pub open spec fn service_names() -> Seq<Seq<char>> {
    seq!["login-manager"@, "registry"@, "desktop"@, "hid-serv"@, "drive-bay"@]
}

/// The apps a computer can have installed. A fixed catalogue: adding an app means adding it
/// here, not registering it from outside.
#[derive(Debug, Clone, Copy, PartialEq, Eq, Structural, Hash, PartialOrd, Ord)]
pub enum AppKind {
    /// Browse and move files.
    FileManager,
    /// Scan the networks the computer is on.
    NetScan,
    /// Email.
    Mail,
    /// Calendar.
    Calendar,
    /// Web browser.
    Browser,
    /// Command line.
    Terminal,
    /// Bulletin-board client.
    BbsClient,
    /// Modem dialler.
    Dialer,
    /// Password cracker.
    CryptCracker,
    /// Shares files with other computers.
    FileShare,
    /// A user directory service.
    Directory,
    /// Runs jobs on a schedule.
    Scheduler,
    /// A database server.
    Database,
}

impl AppKind {
    /// Every app in the catalogue.
    pub const ALL: [Self; 13] = [
        Self::FileManager,
        Self::NetScan,
        Self::Mail,
        Self::Calendar,
        Self::Browser,
        Self::Terminal,
        Self::BbsClient,
        Self::Dialer,
        Self::CryptCracker,
        Self::FileShare,
        Self::Directory,
        Self::Scheduler,
        Self::Database,
    ];

    /// The app's node name inside a computer.
    pub open spec fn text(self) -> Seq<char> {
        match self {
            AppKind::FileManager => "fileman"@,
            AppKind::NetScan => "net-scan"@,
            AppKind::Mail => "mail"@,
            AppKind::Calendar => "calendar"@,
            AppKind::Browser => "browser"@,
            AppKind::Terminal => "terminal"@,
            AppKind::BbsClient => "bbs-client"@,
            AppKind::Dialer => "dialer"@,
            AppKind::CryptCracker => "crypt-cracker"@,
            AppKind::FileShare => "file-share"@,
            AppKind::Directory => "directory"@,
            AppKind::Scheduler => "scheduler"@,
            AppKind::Database => "database"@,
        }
    }

    /// The app's node name inside a computer, such as `"net-scan"`.
    pub fn name(self) -> (r: &'static str)
        ensures
            r@ == self.text(),
    {
        match self {
            AppKind::FileManager => "fileman",
            AppKind::NetScan => "net-scan",
            AppKind::Mail => "mail",
            AppKind::Calendar => "calendar",
            AppKind::Browser => "browser",
            AppKind::Terminal => "terminal",
            AppKind::BbsClient => "bbs-client",
            AppKind::Dialer => "dialer",
            AppKind::CryptCracker => "crypt-cracker",
            AppKind::FileShare => "file-share",
            AppKind::Directory => "directory",
            AppKind::Scheduler => "scheduler",
            AppKind::Database => "database",
        }
    }

    /// A short description.
    pub open spec fn title_text(self) -> Seq<char> {
        match self {
            AppKind::FileManager => "File manager"@,
            AppKind::NetScan => "Network scanner"@,
            AppKind::Mail => "Mail"@,
            AppKind::Calendar => "Calendar"@,
            AppKind::Browser => "Browser"@,
            AppKind::Terminal => "Terminal"@,
            AppKind::BbsClient => "BBS client"@,
            AppKind::Dialer => "Dialer"@,
            AppKind::CryptCracker => "Crypt cracker"@,
            AppKind::FileShare => "File share"@,
            AppKind::Directory => "Directory service"@,
            AppKind::Scheduler => "Scheduler"@,
            AppKind::Database => "Database"@,
        }
    }

    /// A short description for people.
    pub fn title(self) -> (r: &'static str)
        ensures
            r@ == self.title_text(),
    {
        match self {
            AppKind::FileManager => "File manager",
            AppKind::NetScan => "Network scanner",
            AppKind::Mail => "Mail",
            AppKind::Calendar => "Calendar",
            AppKind::Browser => "Browser",
            AppKind::Terminal => "Terminal",
            AppKind::BbsClient => "BBS client",
            AppKind::Dialer => "Dialer",
            AppKind::CryptCracker => "Crypt cracker",
            AppKind::FileShare => "File share",
            AppKind::Directory => "Directory service",
            AppKind::Scheduler => "Scheduler",
            AppKind::Database => "Database",
        }
    }

    /// Looks an app up by [`name`](Self::name).
    pub fn from_name(name: &str) -> (r: Option<Self>)
        ensures
            match r {
                Some(app) => app.text() == name@,
                None => forall|app: AppKind| #[trigger] app.text() != name@,
            },
    {
        if same_text(name, "fileman") {
            Some(AppKind::FileManager)
        } else if same_text(name, "net-scan") {
            Some(AppKind::NetScan)
        } else if same_text(name, "mail") {
            Some(AppKind::Mail)
        } else if same_text(name, "calendar") {
            Some(AppKind::Calendar)
        } else if same_text(name, "browser") {
            Some(AppKind::Browser)
        } else if same_text(name, "terminal") {
            Some(AppKind::Terminal)
        } else if same_text(name, "bbs-client") {
            Some(AppKind::BbsClient)
        } else if same_text(name, "dialer") {
            Some(AppKind::Dialer)
        } else if same_text(name, "crypt-cracker") {
            Some(AppKind::CryptCracker)
        } else if same_text(name, "file-share") {
            Some(AppKind::FileShare)
        } else if same_text(name, "directory") {
            Some(AppKind::Directory)
        } else if same_text(name, "scheduler") {
            Some(AppKind::Scheduler)
        } else if same_text(name, "database") {
            Some(AppKind::Database)
        } else {
            None
        }
    }
}

/// Different apps have different names, and no app has the name of a service.
pub proof fn law_app_names_are_distinct(a: AppKind, b: AppKind)
    ensures
        a.text() == b.text() ==> a == b,
        !service_names().contains(a.text()),
{
    reveal_names();
    lemma_first_letters(a);
    lemma_first_letters(b);
    assert forall|i: int| 0 <= i < service_names().len() implies service_names()[i]
        != a.text() by {
        assert(i == 0 || i == 1 || i == 2 || i == 3 || i == 4);
    }
}

/// Where the apps' names first differ from each other and from the services' names.
proof fn lemma_first_letters(a: AppKind)
    ensures
        a.text().len() == (match a {
            AppKind::FileManager => 7nat,
            AppKind::NetScan => 8,
            AppKind::Mail => 4,
            AppKind::Calendar => 8,
            AppKind::Browser => 7,
            AppKind::Terminal => 8,
            AppKind::BbsClient => 10,
            AppKind::Dialer => 6,
            AppKind::CryptCracker => 13,
            AppKind::FileShare => 10,
            AppKind::Directory => 9,
            AppKind::Scheduler => 9,
            AppKind::Database => 8,
        }),
        a.text()[0] == (match a {
            AppKind::FileManager => 'f',
            AppKind::NetScan => 'n',
            AppKind::Mail => 'm',
            AppKind::Calendar => 'c',
            AppKind::Browser => 'b',
            AppKind::Terminal => 't',
            AppKind::BbsClient => 'b',
            AppKind::Dialer => 'd',
            AppKind::CryptCracker => 'c',
            AppKind::FileShare => 'f',
            AppKind::Directory => 'd',
            AppKind::Scheduler => 's',
            AppKind::Database => 'd',
        }),
        a.text()[1] == (match a {
            AppKind::FileManager => 'i',
            AppKind::NetScan => 'e',
            AppKind::Mail => 'a',
            AppKind::Calendar => 'a',
            AppKind::Browser => 'r',
            AppKind::Terminal => 'e',
            AppKind::BbsClient => 'b',
            AppKind::Dialer => 'i',
            AppKind::CryptCracker => 'r',
            AppKind::FileShare => 'i',
            AppKind::Directory => 'i',
            AppKind::Scheduler => 'c',
            AppKind::Database => 'a',
        }),
{
    reveal_strlit("fileman");
    reveal_strlit("net-scan");
    reveal_strlit("mail");
    reveal_strlit("calendar");
    reveal_strlit("browser");
    reveal_strlit("terminal");
    reveal_strlit("bbs-client");
    reveal_strlit("dialer");
    reveal_strlit("crypt-cracker");
    reveal_strlit("file-share");
    reveal_strlit("directory");
    reveal_strlit("scheduler");
    reveal_strlit("database");
}

/// Where the services' names first differ from each other.
pub proof fn reveal_names()
    ensures
        "login-manager"@.len() == 13 && "login-manager"@[0] == 'l',
        "registry"@.len() == 8 && "registry"@[0] == 'r',
        "desktop"@.len() == 7 && "desktop"@[0] == 'd',
        "hid-serv"@.len() == 8 && "hid-serv"@[0] == 'h',
        "drive-bay"@.len() == 9 && "drive-bay"@[0] == 'd' && "drive-bay"@[1] == 'r',
{
    reveal_strlit("login-manager");
    reveal_strlit("registry");
    reveal_strlit("desktop");
    reveal_strlit("hid-serv");
    reveal_strlit("drive-bay");
}

/// A hardware capability a computer can have.
#[derive(Debug, Clone, Copy, PartialEq, Eq, Structural, Hash, PartialOrd, Ord)]
pub enum HardwareTag {
    /// A Wi-Fi card.
    Wifi,
    /// A modem.
    Modem,
    /// A network card in promiscuous mode: the kernel hears all traffic on its links, not just
    /// what is addressed to it.
    PromiscuousNic,
}

impl HardwareTag {
    /// Every tag.
    pub const ALL: [Self; 3] = [Self::Wifi, Self::Modem, Self::PromiscuousNic];

    /// The tag's name, such as `"promiscuous-nic"`.
    pub fn name(self) -> (r: &'static str)
        ensures
            r@ == (match self {
                HardwareTag::Wifi => "wifi"@,
                HardwareTag::Modem => "modem"@,
                HardwareTag::PromiscuousNic => "promiscuous-nic"@,
            }),
    {
        match self {
            HardwareTag::Wifi => "wifi",
            HardwareTag::Modem => "modem",
            HardwareTag::PromiscuousNic => "promiscuous-nic",
        }
    }
}

/// Parameters for building a computer.
#[derive(Debug, PartialEq, Eq)]
pub struct ComputerSpec {
    /// Installed apps, from the fixed catalogue. Each at most once.
    pub apps: Vec<AppKind>,
    /// Hardware capabilities. How often one is listed makes no difference.
    pub hardware: Vec<HardwareTag>,
}

impl Default for ComputerSpec {
    /// A computer with no apps and no special hardware.
    fn default() -> (r: Self)
        ensures
            r.apps@ == Seq::<AppKind>::empty(),
            r.hardware@ == Seq::<HardwareTag>::empty(),
    {
        ComputerSpec { apps: Vec::new(), hardware: Vec::new() }
    }
}

/// What a [`Kernel`] holds.
#[verifier::ext_equal]
pub struct KernelView {
    pub promiscuous: bool,
    pub sniffed: u64,
}

/// A computer's root logic: the gateway between its apps and the networks it is on, plus
/// whatever its hardware adds.
#[derive(Debug, Clone, Copy)]
pub struct Kernel {
    promiscuous: bool,
    sniffed: u64,
}

impl View for Kernel {
    type V = KernelView;

    closed spec fn view(&self) -> KernelView {
        KernelView { promiscuous: self.promiscuous, sniffed: self.sniffed }
    }
}

impl Default for Kernel {
    fn default() -> (r: Self)
        ensures
            r@ == (KernelView { promiscuous: false, sniffed: 0 }),
    {
        Kernel { promiscuous: false, sniffed: 0 }
    }
}

/// Whether `n` is 1, 2, 4, 8 and so on.
pub open spec fn power_of_two(n: nat) -> bool
    decreases n,
{
    n == 1 || n > 1 && n % 2 == 0 && power_of_two(n / 2)
}

/// Whether `n` is 1, 2, 4, 8 and so on.
fn is_power_of_two(n: u64) -> (r: bool)
    ensures
        r == power_of_two(n as nat),
    decreases n,
{
    n == 1 || n > 1 && n % 2 == 0 && is_power_of_two(n / 2)
}

impl KernelView {
    /// What the kernel notes when it has overheard `n` packets.
    pub open spec fn sniff_note(n: u64, packet: crate::packet::PacketView) -> Seq<char> {
        "sniffed "@ + crate::text::decimal_text(n as nat) + " packets (latest: "@
            + packet.event.kind + " → "@ + crate::route::route_text(packet.to) + ")"@
    }

    /// The kernel once it got a packet that was accepted by `rule`.
    pub open spec fn received(self, rule: Option<AcceptRule>) -> KernelView {
        if rule == Some(AcceptRule::Forced) {
            KernelView { sniffed: crate::trace::bump(self.sniffed), ..self }
        } else {
            self
        }
    }

    /// What the context is once the kernel got `packet`.
    pub open spec fn reacted(
        self,
        packet: crate::packet::PacketView,
        c: crate::logic::ContextView,
    ) -> crate::logic::ContextView {
        if c.accepted_by == Some(AcceptRule::Forced) {
            let n = crate::trace::bump(self.sniffed);
            if power_of_two(n as nat) {
                c.noted(Self::sniff_note(n, packet))
            } else {
                c
            }
        } else {
            c.gated(packet)
        }
    }
}

/// How many of the packets were accepted only because the logic asked for them.
pub open spec fn overheard(rules: Seq<Option<AcceptRule>>) -> nat
    decreases rules.len(),
{
    if rules.len() == 0 {
        0
    } else {
        overheard(rules.drop_last()) + if rules.last() == Some(AcceptRule::Forced) {
            1nat
        } else {
            0nat
        }
    }
}

impl KernelView {
    /// The kernel once it got packets that were accepted by the rules, one after the other.
    pub open spec fn received_all(self, rules: Seq<Option<AcceptRule>>) -> KernelView
        decreases rules.len(),
    {
        if rules.len() == 0 {
            self
        } else {
            self.received_all(rules.drop_last()).received(rules.last())
        }
    }
}

/// A kernel counts the packets it overhears, and just those. The count stops at the largest number
/// it can hold.
pub proof fn law_sniffed_packets_are_counted(kernel: KernelView, rules: Seq<Option<AcceptRule>>)
    ensures
        kernel.sniffed + overheard(rules) <= u64::MAX ==> kernel.received_all(rules).sniffed
            == kernel.sniffed + overheard(rules),
        kernel.sniffed + overheard(rules) > u64::MAX ==> kernel.received_all(rules).sniffed
            == u64::MAX,
        kernel.received_all(rules).promiscuous == kernel.promiscuous,
    decreases rules.len(),
{
    if rules.len() > 0 {
        law_sniffed_packets_are_counted(kernel, rules.drop_last());
    }
}

/// A kernel sends nothing for a packet it overhears: it makes at most a note.
pub proof fn law_overheard_packets_are_not_answered(
    kernel: KernelView,
    packet: crate::packet::PacketView,
    c: crate::logic::ContextView,
)
    requires
        c.accepted_by == Some(AcceptRule::Forced),
    ensures
        kernel.reacted(packet, c).queue == c.queue,
        kernel.reacted(packet, c).log == c.log || kernel.reacted(packet, c).log == c.noted(
            KernelView::sniff_note(crate::trace::bump(kernel.sniffed), packet),
        ).log,
{
}

impl Kernel {
    /// Name of this logic.
    pub const KIND: &'static str = "kernel";

    /// A kernel for the given hardware.
    pub fn new(hardware: &Vec<HardwareTag>) -> (r: Self)
        ensures
            r@ == (KernelView {
                promiscuous: hardware@.contains(HardwareTag::PromiscuousNic),
                sniffed: 0,
            }),
    {
        let mut i: usize = 0;
        while i < hardware.len()
            invariant
                i <= hardware.len(),
                forall|j: int| 0 <= j < i ==> hardware@[j] != HardwareTag::PromiscuousNic,
            decreases hardware.len() - i,
        {
            if hardware[i] == HardwareTag::PromiscuousNic {
                return Kernel { promiscuous: true, sniffed: 0 };
            }
            i += 1;
        }
        Kernel { promiscuous: false, sniffed: 0 }
    }

    /// Packets overheard by a promiscuous network card.
    pub fn sniffed(&self) -> (r: u64)
        ensures
            r == self@.sniffed,
    {
        self.sniffed
    }
}

impl ControllerLogic for Kernel {
    open spec fn kind_text(&self) -> Seq<char> {
        Self::KIND@
    }

    open spec fn rules(&self) -> LogicRules {
        crate::behaviour::own_rules(|s: LogicState| BehaviourView::Kernel(s->Kernel_0))
    }

    open spec fn state(&self) -> LogicState {
        LogicState::Kernel(self@)
    }

    fn kind(&self) -> (r: &'static str) {
        Self::KIND
    }

    fn on_start(&mut self, ctx: &mut Context<'_>) -> (r: Result<(), String>)
        ensures
            r is Ok,
            final(self)@ == old(self)@,
            final(ctx)@ == old(ctx)@,
    {
        proof {
            crate::logic::lemma_extends_same(ctx@);
        }
        Ok(())
    }

    fn on_tick(&mut self, ctx: &mut Context<'_>) -> (r: Result<(), String>)
        ensures
            r is Ok,
            final(self)@ == old(self)@,
            final(ctx)@ == old(ctx)@,
    {
        proof {
            crate::logic::lemma_extends_same(ctx@);
        }
        Ok(())
    }

    fn relaying(&self) -> (r: Relaying)
        ensures
            r == Relaying::Routed,
    {
        Relaying::Routed
    }

    fn wants(&self, packet: &Packet) -> (r: bool)
        ensures
            r == self@.promiscuous,
    {
        self.promiscuous
    }

    fn on_received(&mut self, packet: &Packet, ctx: &mut Context<'_>) -> (r: Result<(), String>)
        ensures
            r is Ok,
            final(self)@ == old(self)@.received(old(ctx)@.accepted_by),
            final(ctx)@ == old(self)@.reacted(packet@, old(ctx)@),
    {
        if ctx.accepted_by() == Some(AcceptRule::Forced) {
            // Overheard, not addressed to us: a sniffer records it and does nothing else.
            self.sniffed = self.sniffed.saturating_add(1);
            if is_power_of_two(self.sniffed) {
                let mut text = "sniffed ".to_owned();
                text.append(decimal(self.sniffed).as_str());
                text.append(" packets (latest: ");
                text.append(packet.event().kind.as_str());
                text.append(" → ");
                text.append(packet.to().to_string().as_str());
                text.append(")");
                ctx.note(text.as_str());
            } else {
                proof {
                    crate::logic::lemma_extends_same(ctx@);
                }
            }
            return Ok(());
        }
        Gateway::handle(packet, ctx);
        Ok(())
    }
}

} // verus!
