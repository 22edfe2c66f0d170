//! The sandbox around a world: its traffic log, checklist, control port and packaging.

use emergence::activity::{Activity, Tone, LOG_CAPACITY};
use emergence::answers;
use emergence::checklist::{tab_label, Checklist, RunnerEvent, Status};
use emergence::console::{
    find_called, find_matching, find_test, same_ignoring_case, Action, Desk, Entry, Request,
};
use emergence::labels;
use emergence::packaging::{folder_meta, plugin_meta, task_of, triple, Platform, Task};
use emergence::probe::{CheckLine, Probe, TestReport};
use emergence::report::{
    About, AlertReport, FuseSummary, HealthReport, LimitsReport, TraceEntry,
};
use emergence::run::{stop_reason, Run};
use emergence::scene::Item;
use emergence::snapshot::{LinkEntry, NodeEntry, RawSnapshot, Snapshot, SnapshotError};
use emergence::{Severity, TickOutcome, World};

/// root(1) ─ pc(2, gateway) ─ app(3); wifi(8) owned by root, ipc(9) owned by pc.
fn snapshot() -> Result<Snapshot, SnapshotError> {
    let node = |id, name: &str, kind: &str, parent, children, own, on, logic: Option<&str>| {
        NodeEntry {
            id,
            name: name.to_owned(),
            kind: kind.to_owned(),
            parent,
            children,
            internal_links: own,
            subscriptions: on,
            logic: logic.map(str::to_owned),
            sent: id,
            received: 10 + id,
        }
    };
    Snapshot::load(RawSnapshot {
        format: 2,
        tick: 5,
        root: 1,
        nodes: vec![
            node(1, ".", "root", None, vec![2], vec![8], vec![], None),
            node(2, "pc", "computer", Some(1), vec![3], vec![9], vec![8], Some("gateway")),
            node(3, "app", "app", Some(2), vec![], vec![], vec![9], None),
        ],
        links: vec![
            LinkEntry {
                id: 8,
                name: "wifi".to_owned(),
                owner: Some(1),
                subscribers: vec![2],
            },
            LinkEntry {
                id: 9,
                name: "ipc".to_owned(),
                owner: Some(2),
                subscribers: vec![3],
            },
        ],
    })
}

fn sent(packet: u64, data: Option<&str>) -> TraceEntry {
    TraceEntry::Sent {
        tick: 4,
        packet,
        sender: 3,
        link: 9,
        from: "app@ipc".to_owned(),
        to: "*@ipc".to_owned(),
        kind: "ping".to_owned(),
        data: data.map(str::to_owned),
        data_len: 0,
        ttl: 16,
    }
}

fn delivered(packet: u64, receiver: u64, rule: &str) -> TraceEntry {
    TraceEntry::Delivered {
        tick: 4,
        packet,
        receiver,
        link: 9,
        rule: rule.to_owned(),
    }
}

fn alert(tick: u64, check: &str, severity: Severity, subject: Option<About>) -> AlertReport {
    AlertReport {
        tick,
        check: check.to_owned(),
        severity,
        subject,
        value: 0,
        limit: 0,
        message: format!("{check}!"),
    }
}

#[test]
fn the_log_tells_who_heard_what() -> Result<(), SnapshotError> {
    let snap = snapshot()?;
    let mut activity = Activity::new();
    let flights = activity.ingest(
        &snap,
        &vec![
            sent(1, Some("hi")),
            delivered(1, 2, "child_to_parent"),
            delivered(1, 3, "broadcast"),
            delivered(7, 3, "broadcast"),
            TraceEntry::Note {
                tick: 4,
                node: 2,
                text: "up".to_owned(),
            },
            sent(2, Some("")),
            TraceEntry::Dropped {
                tick: 4,
                packet: 2,
                at: Some(2),
                reason: "ttl_expired".to_owned(),
            },
            TraceEntry::Dropped {
                tick: 4,
                packet: 9,
                at: None,
                reason: "no_recipient".to_owned(),
            },
            TraceEntry::Alert(alert(4, "replay", Severity::Warning, None)),
            TraceEntry::Other,
        ],
    );
    assert_eq!((activity.packets(), activity.drops()), (2, 2));
    assert_eq!(activity.alerts().len(), 1);
    assert_eq!(flights.len(), 2);
    assert_eq!(flights[0].receivers, vec![2, 3]);
    assert_eq!((flights[1].sender, flights[1].link), (3, 9));
    assert_eq!(activity.log_len(), 3);
    assert_eq!(activity.line(0).text, "pc: up");
    assert!(matches!(activity.line(0).tone, Tone::Note));
    assert_eq!(
        activity.line(1).text,
        "app ─ping \"hi\"→ *@ipc  via ipc  ⇒ pc (child to parent), app"
    );
    assert!(matches!(&activity.line(1).tone, Tone::Event(kind) if kind == "ping"));
    assert!(activity.line(1).involves(2) && !activity.line(1).involves(1));
    assert_eq!(
        activity.line(2).text,
        "app ─ping→ *@ipc  via ipc  ⇒ nobody  ✕ ttl expired at pc"
    );
    assert!(matches!(activity.line(2).tone, Tone::Lost));
    assert_eq!(
        answers::log(&activity, 2),
        vec![
            format!("t4     {}", activity.line(1).text),
            format!("t4     {}", activity.line(2).text),
        ]
    );
    activity.clear_log();
    assert_eq!((activity.log_len(), activity.packets()), (0, 2));
    activity.clear();
    assert_eq!((activity.packets(), activity.alerts().len()), (0, 0));
    Ok(())
}

#[test]
fn the_log_is_bounded() -> Result<(), SnapshotError> {
    let snap = snapshot()?;
    let mut activity = Activity::new();
    let note = |i: usize| TraceEntry::Note {
        tick: i as u64,
        node: 2,
        text: String::new(),
    };
    let _ = activity.ingest(&snap, &(0..LOG_CAPACITY + 5).map(note).collect());
    assert_eq!(activity.log_len(), LOG_CAPACITY);
    assert_eq!(activity.line(0).tick, 5);
    Ok(())
}

fn report(passed: bool) -> TestReport {
    TestReport {
        passed,
        lines: vec![
            CheckLine {
                label: "quiet".to_owned(),
                passed,
                detail: "3 packets".to_owned(),
            },
            CheckLine {
                label: "bounded".to_owned(),
                passed: true,
                detail: "yes".to_owned(),
            },
        ],
        error: None,
        ticks: 40,
        peak_transmissions: 7,
        alerts: 0,
        fuse: if passed { None } else { Some("tick 3".to_owned()) },
        elapsed: "12ms".to_owned(),
        elapsed_ms: 12,
    }
}

fn entries(names: &[(&str, &str)]) -> Vec<Entry> {
    names
        .iter()
        .map(|(group, name)| Entry {
            group: (*group).to_owned(),
            name: (*name).to_owned(),
            description: format!("About {name}."),
        })
        .collect()
}

fn tests() -> Vec<Entry> {
    entries(&[
        ("Loops", "Relay loop: two bridges"),
        ("Loops", "Broadcast storm: four bridges"),
        ("Floods", "Firehose"),
    ])
}

#[test]
fn a_test_is_queued_running_and_done() {
    let mut list = Checklist::new(3);
    assert_eq!(list.status(0), Status::NotRun);
    assert!(!list.run(&vec![]));
    assert!(list.run(&vec![0, 2]));
    assert!(!list.run(&vec![1]));
    assert!(list.is_running());
    assert_eq!(list.status(2), Status::Queued);
    list.on_event(RunnerEvent::Started(0));
    assert_eq!(list.status_name(0), "running");
    list.on_event(RunnerEvent::Finished(0, report(false)));
    assert_eq!(list.status_name(0), "failed");
    assert!(list.is_expanded(0));
    list.on_event(RunnerEvent::Started(2));
    list.on_event(RunnerEvent::Finished(2, report(true)));
    assert!(!list.is_expanded(2));
    list.on_event(RunnerEvent::Done);
    assert!(!list.is_running());
    assert_eq!(list.counts(), (1, 1, 3));
    assert_eq!(list.failed(), vec![0]);
    assert_eq!(list.report(2).map(|r| r.ticks), Some(40));
    assert!(list.report(1).is_none() && list.report(9).is_none());
    list.toggle(0);
    assert!(!list.is_expanded(0));
    assert!(list.run(&vec![0]));
    assert_eq!(list.status(0), Status::Queued);
    assert_eq!(list.counts(), (1, 0, 3));
}

#[test]
fn statuses_have_symbols() {
    let icons: Vec<&str> = [
        Status::NotRun,
        Status::Queued,
        Status::Running,
        Status::Passed,
        Status::Failed,
    ]
    .iter()
    .map(|s| s.icon())
    .collect();
    assert_eq!(icons, vec!["○", "…", "◌", "✔", "✘"]);
    assert_eq!(tab_label(1, 0, 3, true), "Tests (running… 1/3)");
    assert_eq!(tab_label(1, 2, 3, false), "Tests (2 failed)");
    assert_eq!(tab_label(3, 0, 3, false), "Tests (3/3)");
}

#[test]
fn results_are_listed() {
    let mut list = Checklist::new(3);
    assert!(list.run(&vec![0, 1]));
    list.on_event(RunnerEvent::Finished(0, report(false)));
    list.on_event(RunnerEvent::Finished(1, report(true)));
    list.on_event(RunnerEvent::Done);
    assert_eq!(
        answers::test_list(&tests(), &list),
        "Loops\n  ✘ Relay loop: two bridges\n  ✔ Broadcast storm: four bridges\nFloods\n  ○ Firehose"
    );
    assert_eq!(
        answers::results(&tests(), &list, false),
        (
            false,
            "✘ Relay loop: two bridges  (40 ticks, 12ms, peak 7/tick, fuse tripped)\n    ✘ quiet — 3 packets\n✔ Broadcast storm: four bridges  (40 ticks, 12ms, peak 7/tick)\n○ Firehose\n1 passed, 1 failed of 3".to_owned()
        )
    );
    let (ok, text) = answers::results(&tests(), &list, true);
    assert!(!ok && !text.contains("Firehose"));
    let stuck = TestReport::error("cancelled".to_owned(), "0ns".to_owned(), 0);
    list.on_event(RunnerEvent::Finished(2, stuck));
    assert!(answers::results(&tests(), &list, true)
        .1
        .contains("✘ Firehose  (0 ticks, 0ns, peak 0/tick)\n    ✘ cancelled\n"));
}

#[test]
fn tests_are_found_by_name_or_word_prefix() {
    let tests = tests();
    assert_eq!(find_test(&tests, "FIREHOSE"), Ok(2));
    assert_eq!(find_test(&tests, "storm"), Ok(1));
    assert_eq!(
        find_test(&tests, "bridges"),
        Err(
            "`bridges` matches several tests: Relay loop: two bridges, Broadcast storm: four bridges"
                .to_owned()
        )
    );
    assert_eq!(
        find_test(&tests, "quake"),
        Err("no test matches `quake` (try `tests`)".to_owned())
    );
    assert!(emergence::console::matches("Ödland", "öD"));
    assert!(!emergence::console::matches("Office", "officer"));
    assert!(same_ignoring_case("aZ", "Az") && !same_ignoring_case("ä", "Ä"));
    assert_eq!(find_called(&tests, "storm"), None);
    assert_eq!(find_matching(&tests, "b"), Some(0));
    assert_eq!(find_matching(&tests, "o"), None);
    let storm = "Broadcast storm: four bridges";
    for found in ["storm", "STORM: f", "broad", "bridges", "", storm] {
        assert!(emergence::console::matches(storm, found), "{found}");
    }
    for missed in ["torm", "road", "ridges", "storm four"] {
        assert!(!emergence::console::matches(storm, missed), "{missed}");
    }
    assert!(emergence::console::matches("a\u{2014}storm", "storm"));
    assert!(!emergence::console::matches("Bären", "ren"));
    assert!(emergence::console::matches_lowered("a_b-c", "c"));
    assert!(emergence::console::matches_lowered("a_b-c", "b"));
    assert!(!emergence::console::matches_lowered("a1b", "b"));
    assert_eq!(
        find_test(&tests, "torm"),
        Err("no test matches `torm` (try `tests`)".to_owned())
    );
}

fn said(action: Action) -> Option<(bool, String)> {
    match action {
        Action::Answer { ok, text } => Some((ok, text)),
        _ => None,
    }
}

fn refused(text: &str) -> Option<(bool, String)> {
    Some((false, text.to_owned()))
}

#[test]
fn requests_are_decided() -> Result<(), SnapshotError> {
    let snap = snapshot()?;
    let (scenarios, tests) = (entries(&[("", "Office"), ("", "Mesh")]), tests());
    let desk = Desk {
        scenarios: &scenarios,
        tests: &tests,
        library_problem: None,
        loaded: Ok(&snap),
        scope: Some(3),
        running: false,
        capturing: false,
    };
    let name = |s: &str| s.to_owned();
    assert!(matches!(
        desk.decide(Request::Load { name: name("off") }),
        Action::BuildScenario(0)
    ));
    assert_eq!(
        said(desk.decide(Request::Load { name: name("zoo") })),
        refused("no scenario matches `zoo` (try `scenarios`)")
    );
    assert!(matches!(
        desk.decide(Request::Watch { name: name("fire") }),
        Action::WatchTest(2)
    ));
    assert!(matches!(
        desk.decide(Request::Step { ticks: 0 }),
        Action::RunTicks(1)
    ));
    assert!(matches!(
        desk.decide(Request::Run { names: vec![], wait: true }),
        Action::RunTests { tests, wait: true } if tests == vec![0, 1, 2]
    ));
    assert!(matches!(
        desk.decide(Request::Run { names: vec![name("storm")], wait: false }),
        Action::RunTests { tests, wait: false } if tests == vec![1]
    ));
    assert_eq!(
        said(desk.decide(Request::Run { names: vec![name("storm"), name("x9")], wait: false })),
        refused("no test matches `x9` (try `tests`)")
    );
    assert!(matches!(
        desk.decide(Request::Open { node: None }),
        Action::Enter(1)
    ));
    assert!(matches!(
        desk.decide(Request::Open { node: Some(name("pc")) }),
        Action::Enter(2)
    ));
    assert_eq!(
        said(desk.decide(Request::Open { node: Some(name("tv")) })),
        refused("no node named `tv`")
    );
    assert!(matches!(desk.decide(Request::Up), Action::Enter(2)));
    assert!(matches!(
        desk.decide(Request::Select { node: name("world") }),
        Action::Select(1)
    ));
    assert!(matches!(
        desk.decide(Request::Logic { node: name("app"), kind: name("echo") }),
        Action::SetLogic { id: 3, .. }
    ));
    assert!(matches!(
        desk.decide(Request::Limits { transmissions: Some(7), deliveries: None, queue: None, payload: Some(9) }),
        Action::SetLimits(LimitsReport { max_transmissions_per_tick: 7, max_deliveries_per_tick: 0, max_pending: 0, max_payload_bytes: 9 })
    ));
    assert!(matches!(
        desk.decide(Request::Screenshot { path: name("a.png") }),
        Action::Screenshot(_)
    ));
    let busy = Desk {
        loaded: Err("broken"),
        scope: None,
        running: true,
        capturing: true,
        ..desk
    };
    assert_eq!(
        said(busy.decide(Request::Run { names: vec![], wait: false })),
        refused("tests are already running")
    );
    assert_eq!(
        said(busy.decide(Request::Step { ticks: 1 })),
        refused("nothing is loaded")
    );
    assert_eq!(
        said(busy.decide(Request::Node { name: name("pc") })),
        refused("broken")
    );
    assert_eq!(said(busy.decide(Request::Up)), refused("already at the top"));
    assert_eq!(
        said(busy.decide(Request::Screenshot { path: name("a") })),
        refused("a screenshot is already being taken")
    );
    let down = Desk {
        library_problem: Some("no library"),
        ..busy
    };
    assert_eq!(
        said(down.decide(Request::Run { names: vec![], wait: false })),
        refused("no library")
    );
    Ok(())
}

#[test]
fn answers_are_worded() -> Result<(), SnapshotError> {
    let snap = snapshot()?;
    let health = HealthReport::of(&World::new());
    let list = Checklist::new(3);
    let view = answers::view_name("Office", None);
    assert_eq!(view, "scenario “Office”");
    assert_eq!(answers::view_name("Office", Some("Firehose")), "test “Firehose”");
    let mut outlook = answers::Outlook {
        view: &view,
        speed: Some("4"),
        tripped: false,
        scope: Some(3),
        selection: Some(Item::Link(9)),
    };
    assert_eq!(
        answers::status(&snap, &health, &outlook, &list),
        "scenario “Office” · tick 0 · playing at 4 ticks/s\nload 0/tick (peak 0) · queued 0 · alerts 0 · fuse ok\n3 nodes · 2 links · viewing world › pc › app · selected link ipc\ntests: 0 passed, 0 failed of 3"
    );
    outlook.speed = None;
    outlook.tripped = true;
    outlook.scope = None;
    outlook.selection = None;
    let text = answers::status(&snap, &health, &outlook, &list);
    assert!(text.contains("paused") && text.contains("fuse TRIPPED"));
    assert!(text.contains("viewing ? · selected nothing"));
    assert_eq!(
        snap.node(2).map(|n| answers::node_info(&snap, n)),
        Some("pc (computer · gateway)\n  parent: world\n  on links: wifi\n  owns links: ipc\n  children: app\n  sent 2 · received 12".to_owned())
    );
    assert_eq!(
        answers::scenario_list(&entries(&[("", "Office"), ("", "Mesh")])),
        "Office           About Office.\nMesh             About Mesh."
    );
    assert_eq!(
        answers::step_text(1, 2, 3, &health, None),
        "ran 1 tick → tick 0 · 2 packets · 3 new alerts · load 0/tick"
    );
    assert_eq!(
        answers::step_text(2, 0, 0, &health, Some("why")),
        "ran 2 ticks → tick 0 · 0 packets · 0 new alerts · load 0/tick\nwhy"
    );
    assert_eq!(
        answers::limits_text(&health.limits),
        "fuse limits: 5000 sent/tick · 50000 delivered/tick · 20000 queued · 65536 payload bytes"
    );
    assert_eq!(
        answers::sent_text("pc", "wifi", "*@wifi", "ping"),
        "pc ─ping→ *@wifi via wifi: queued for the next tick"
    );
    assert_eq!(
        answers::queued_text("ping", "*@wifi", false),
        "ping → *@wifi queued, delivered when you step"
    );
    assert_eq!(answers::logic_text("pc", "echo"), "pc now runs echo");
    Ok(())
}

#[test]
fn alerts_and_fuse_reports_are_worded() -> Result<(), SnapshotError> {
    let snap = snapshot()?;
    let mut activity = Activity::new();
    assert_eq!(answers::alerts(&snap, &activity, 5), "no alerts");
    let replay = alert(12, "replay", Severity::Error, Some(About::Node(2)));
    let rate = alert(3, "link_rate", Severity::Warning, Some(About::Link(8)));
    let _ = activity.ingest(
        &snap,
        &vec![TraceEntry::Alert(rate), TraceEntry::Alert(replay.clone())],
    );
    assert_eq!(
        answers::alerts(&snap, &activity, 1),
        "t12    Error replay · pc: replay!"
    );
    assert_eq!(
        answers::alerts(&snap, &activity, 9),
        "t3     Warning link_rate · link wifi: link_rate!\nt12    Error replay · pc: replay!"
    );
    assert_eq!(answers::alerts(&snap, &activity, 0), "no alerts");
    let mut fuse = FuseSummary {
        tick: 9,
        limit: "queue".to_owned(),
        max: 10,
        held_back: 4,
        top_senders: vec![(2, 6), (1, 1)],
        top_links: vec![(8, 7)],
        recent_alerts: vec![replay],
    };
    assert_eq!(
        answers::fuse_text(&snap, &fuse),
        "FUSE TRIPPED at tick 9: 10 packets waiting (new sends were refused) (4 packets held back). World paused.\n  busiest senders: pc (6), world (1)\n  busiest links: wifi (7)\n  likely causes, earliest first:\n    t12 replay: replay!"
    );
    fuse.recent_alerts.clear();
    assert!(!answers::fuse_text(&snap, &fuse).contains("likely"));
    Ok(())
}

#[test]
fn probes_explain_what_was_found() {
    let mut probe = Probe::new(HealthReport::of(&World::new()));
    probe.expect_alert("replay", Severity::Error);
    probe.expect_no_alerts();
    probe.observe(&vec![
        TraceEntry::Alert(alert(3, "replay", Severity::Warning, None)),
        TraceEntry::Alert(alert(8, "replay", Severity::Error, None)),
        TraceEntry::Alert(alert(9, "a", Severity::Error, None)),
        TraceEntry::Alert(alert(9, "b", Severity::Error, None)),
    ]);
    probe.expect_alert("replay", Severity::Error);
    probe.expect_alert_by("replay", 2);
    probe.expect_no_alert("replay");
    probe.expect_no_alerts();
    probe.expect_fuse("queue");
    probe.expect_report_names("a");
    probe.expect_status("refused", Ok(()), 3);
    probe.expect_status("refused", Err((Some(3), "no".to_owned())), 3);
    let lines: Vec<(String, bool, String)> = probe
        .finish(Ok(()), Some("cancelled"), None, "1s".to_owned(), 1_000)
        .lines
        .into_iter()
        .map(|l| (l.label, l.passed, l.detail))
        .collect();
    let line = |label: &str, passed: bool, detail: &str| {
        (label.to_owned(), passed, detail.to_owned())
    };
    assert_eq!(
        lines,
        vec![
            line("replay alert (error)", false, "never raised"),
            line("no alerts (no false alarms)", true, "none"),
            line("replay alert (error)", true, "tick 8: replay!"),
            line("replay alert by tick 2", false, "raised on tick 3"),
            line("no replay alert", false, "raised on tick 3"),
            line(
                "no alerts (no false alarms)",
                false,
                "4 raised: replay (tick 3), replay (tick 8), a (tick 9)"
            ),
            line("fuse trips (queue)", false, "never tripped"),
            line(
                "fuse report names the cause (a)",
                false,
                "missing from the report"
            ),
            line("refused", false, "accepted"),
            line("refused", true, "no"),
        ]
    );
}

#[test]
fn a_test_passes_only_if_it_finished_and_checked_something() {
    let probe = || Probe::new(HealthReport::of(&World::new()));
    let end = |p: Probe, outcome, stopped| p.finish(outcome, stopped, None, String::new(), 0);
    assert!(!end(probe(), Ok(()), None).passed);
    let mut good = probe();
    good.expect_quiet();
    good.expect_bounded();
    assert!(end(good, Ok(()), None).passed);
    let mut cut = probe();
    cut.expect_quiet();
    let cut = end(cut, Ok(()), stop_reason(true, true));
    assert!(!cut.passed);
    assert_eq!(cut.error.as_deref(), Some("cancelled"));
    let failed = end(probe(), Err("no node".to_owned()), None);
    assert_eq!(failed.error.as_deref(), Some("unexpected error: no node"));
    assert_eq!(stop_reason(false, true), Some("ran out of time"));
    assert_eq!(stop_reason(false, false), None);
}

#[test]
fn runs_stop_at_the_fuse() {
    let mut run = Run::new(3, true);
    assert!(run.is_due());
    run.ticked(TickOutcome::Completed);
    run.ticked(TickOutcome::FuseTripped);
    assert!(!run.is_due() && run.tripped && run.ran == 2);
    let mut on = Run::new(2, false);
    on.ticked(TickOutcome::FuseTripped);
    assert!(on.is_due());
    on.ticked(TickOutcome::Completed);
    assert!(!on.is_due() && on.tripped);
}

#[test]
fn captions_and_colours() {
    assert_eq!(labels::hash(""), 0xcbf2_9ce4_8422_2325);
    assert_eq!(labels::hash("a"), 0xaf63_dc4c_8601_ec8c);
    assert_eq!(labels::link_color("a"), 6);
    assert_eq!(labels::link_color(""), (0xcbf2_9ce4_8422_2325_u64 % 10) as usize);
    assert_eq!(
        labels::kind_color("a"),
        ((0xaf63_dc4c_8601_ec8c_u64 ^ 0x9E37_79B9) % 10) as usize
    );
    assert_eq!(labels::truncate("workstation", 13), "workstation");
    assert_eq!(labels::truncate("büroarbeitsplatz", 5), "büro…");
    assert_eq!(labels::node_caption("app", &None), "app");
    assert_eq!(labels::node_caption("app", &Some("echo".to_owned())), "app · echo");
    assert_eq!(labels::load_level(499, 5_000), labels::LoadLevel::Calm);
    assert_eq!(labels::load_level(500, 5_000), labels::LoadLevel::Busy);
    assert_eq!(labels::load_level(2_500, 5_000), labels::LoadLevel::Critical);
    assert_eq!(labels::load_level(u64::MAX, 0), labels::LoadLevel::Critical);
    assert_eq!(labels::load_level(0, 0), labels::LoadLevel::Calm);
    assert!(labels::load_hint(&HealthReport::of(&World::new()))
        .starts_with("Packets sent last tick. The fuse trips at 5000 sent or 50000 delivered per tick.\nQueued: 0 / 20000  (refused so far: 0)\n"));
}

#[test]
fn command_lines_are_understood() {
    let task = |args: &[&str]| task_of(&args.iter().map(|a| (*a).to_owned()).collect());
    assert!(matches!(task(&[]), Task::Help));
    assert!(matches!(task(&["-h"]), Task::Help));
    assert!(matches!(task(&["bindings"]), Task::Bindings));
    assert!(matches!(
        task(&["sandbox", "--release"]),
        Task::Sandbox { release: true }
    ));
    assert!(matches!(
        task(&["test-csharp"]),
        Task::TestCsharp { release: false }
    ));
    assert!(matches!(
        task(&["dist", "--host"]),
        Task::Dist { host_only: true }
    ));
    assert!(matches!(task(&["fly"]), Task::Unknown(name) if name == "fly"));
}

#[test]
fn packages_carry_metadata() {
    assert_eq!(triple("x86_64-unknown-linux-gnu.2.17"), "x86_64-unknown-linux-gnu");
    assert_eq!(triple("aarch64-apple-darwin"), "aarch64-apple-darwin");
    assert_eq!(
        folder_meta("ab"),
        "fileFormatVersion: 2\nguid: ab\nfolderAsset: yes\nDefaultImporter:\n  externalObjects: {}\n  userData: \n  assetBundleName: \n  assetBundleVariant: \n"
    );
    let meta = plugin_meta(Platform::Linux);
    assert!(meta.contains("guid: 6c1f0a8e2b7d4e9f8a3b5c7d9e1f2a51\n"));
    assert!(meta.contains("        Exclude Linux64: 0\n        Exclude OSXUniversal: 1\n        Exclude Win: 1\n        Exclude Win64: 1\n"));
    assert!(meta.contains("      Standalone: Linux64\n    second:\n      enabled: 1\n      settings:\n        CPU: x86_64\n"));
    assert!(meta.contains("      Standalone: Win\n    second:\n      enabled: 0\n      settings:\n        CPU: None\n"));
    assert!(meta.ends_with("  userData: \n  assetBundleName: \n  assetBundleVariant: \n"));
    for platform in Platform::ALL {
        assert!(platform.is_packaged(false, Platform::MacOs));
        assert_eq!(
            platform.is_packaged(true, Platform::MacOs),
            platform == Platform::MacOs
        );
        assert!(!platform.targets().is_empty());
    }
    assert_eq!(Platform::Windows.file(), "emergence.dll");
    assert_eq!(Platform::MacOs.static_file(), "libemergence.a");
    assert!(Platform::Linux.zig() && !Platform::MacOs.zig());
    assert_eq!(Platform::Windows.folder(), "windows-x86_64");
    assert_eq!(Platform::MacOs.folder_guid(), "6c1f0a8e2b7d4e9f8a3b5c7d9e1f2a40");
}

#[test]
fn adding_and_removing_is_decided() -> Result<(), SnapshotError> {
    let snap = snapshot()?;
    let scenarios = entries(&[("", "Office")]);
    let tests = tests();
    let desk = |problem, loaded, scope| Desk {
        scenarios: &scenarios,
        tests: &tests,
        library_problem: problem,
        loaded,
        scope,
        running: false,
        capturing: false,
    };
    let add = |parent: Option<&str>, link: Option<&str>, new_link: Option<&str>| Request::Add {
        template: "computer".to_owned(),
        name: "pc-2".to_owned(),
        parent: parent.map(str::to_owned),
        link: link.map(str::to_owned),
        new_link: new_link.map(str::to_owned),
    };
    let placed = |action| match action {
        Action::Add { parent, link, .. } => Some((parent, format!("{link:?}"))),
        _ => None,
    };
    let inside = |scope| desk(None, Ok(&snap), scope);
    assert_eq!(
        placed(inside(Some(2)).decide(add(None, Some("wifi"), None))),
        Some((2, "Existing(8)".to_owned()))
    );
    assert_eq!(
        placed(inside(None).decide(add(None, None, None))),
        Some((1, "Nowhere".to_owned()))
    );
    assert_eq!(
        placed(inside(None).decide(add(Some("pc"), Some("wifi"), Some("cable")))),
        Some((2, "New(\"cable\")".to_owned()))
    );
    assert_eq!(
        said(inside(None).decide(add(Some("ghost"), None, None))),
        refused("no node named `ghost`")
    );
    assert_eq!(
        said(inside(None).decide(add(None, Some("ghost"), None))),
        refused("no link named `ghost`")
    );
    assert_eq!(
        said(desk(None, Err("not built yet"), Some(2)).decide(add(None, None, None))),
        refused("not built yet")
    );
    let remove = |name: &str| Request::Remove { node: name.to_owned() };
    assert!(matches!(
        inside(None).decide(remove("app")),
        Action::Remove { id: 3, .. }
    ));
    assert_eq!(
        said(inside(None).decide(remove("ghost"))),
        refused("no node named `ghost`")
    );
    assert!(matches!(inside(None).decide(Request::Templates), Action::ListTemplates));
    assert_eq!(
        said(desk(Some("no library"), Ok(&snap), None).decide(Request::Templates)),
        refused("no library")
    );
    Ok(())
}
