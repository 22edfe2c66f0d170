//! How requests on the control port are answered in words.

use vstd::prelude::*;
use vstd::string::*;

use crate::activity::Activity;
use crate::checklist::{Checklist, Status};
use crate::console::Entry;
use crate::monitor::Severity;
use crate::probe::{CheckLine, TestReport};
use crate::report::{AlertReport, FuseSummary, HealthReport, LimitsReport};
use crate::scene::Item;
use crate::snapshot::{NodeEntry, Snapshot};
use crate::text::{decimal, join, joined, pad, without_trailing_space};

verus! {

/// A number in decimal.
pub open spec fn num(n: u64) -> Seq<char> {
    crate::text::decimal_text(n as nat)
}

/// The names of nodes as displayed.
pub open spec fn shown_names(
    snap: crate::snapshot::SnapView,
    ids: Seq<u64>,
) -> Seq<Seq<char>> {
    ids.map_values(|id: u64| snap.shown_name(id))
}

/// The names of links.
pub open spec fn link_names(snap: crate::snapshot::SnapView, ids: Seq<u64>) -> Seq<Seq<char>> {
    ids.map_values(|id: u64| snap.link_name(id))
}

/// The names of nodes as displayed.
pub fn names_of(snap: &Snapshot, ids: &Vec<u64>) -> (r: Vec<String>)
    ensures
        crate::text::texts(r@) == shown_names(snap@, ids@),
{
    let mut out: Vec<String> = Vec::new();
    let mut i: usize = 0;
    while i < ids.len()
        invariant
            i <= ids.len(),
            out@.len() == i,
            forall|j: int| 0 <= j < i ==> (#[trigger] out@[j])@ == snap@.shown_name(ids@[j]),
        decreases ids.len() - i,
    {
        out.push(snap.name_of(ids[i]).to_owned());
        i += 1;
    }
    assert(crate::text::texts(out@) =~= shown_names(snap@, ids@));
    out
}

/// The names of links.
pub fn link_names_of(snap: &Snapshot, ids: &Vec<u64>) -> (r: Vec<String>)
    ensures
        crate::text::texts(r@) == link_names(snap@, ids@),
{
    let mut out: Vec<String> = Vec::new();
    let mut i: usize = 0;
    while i < ids.len()
        invariant
            i <= ids.len(),
            out@.len() == i,
            forall|j: int| 0 <= j < i ==> (#[trigger] out@[j])@ == snap@.link_name(ids@[j]),
        decreases ids.len() - i,
    {
        out.push(snap.link_name(ids[i]).to_owned());
        i += 1;
    }
    assert(crate::text::texts(out@) =~= link_names(snap@, ids@));
    out
}

// ---- Status ---------------------------------------------------------------------------------

/// Where the view is, from the world down.
pub open spec fn viewing_text(
    snap: crate::snapshot::SnapView,
    scope: Option<u64>,
) -> Seq<char> {
    match scope {
        Some(s) => crate::text::join_text(shown_names(snap, snap.path_to(s)), " › "@),
        None => "?"@,
    }
}

/// Where the view is, from the world down.
pub fn viewing(snap: &Snapshot, scope: Option<u64>) -> (r: String)
    ensures
        r@ == viewing_text(snap@, scope),
{
    match scope {
        Some(s) => join(&names_of(snap, &snap.path_to(s)), " › "),
        None => "?".to_owned(),
    }
}

/// What is selected.
pub open spec fn selected_text(
    snap: crate::snapshot::SnapView,
    selection: Option<Item>,
) -> Seq<char> {
    match selection {
        Some(Item::Node(n)) => snap.shown_name(n),
        Some(Item::Link(l)) => "link "@ + snap.link_name(l),
        None => "nothing"@,
    }
}

/// What is selected.
pub fn selected(snap: &Snapshot, selection: Option<Item>) -> (r: String)
    ensures
        r@ == selected_text(snap@, selection),
{
    match selection {
        Some(Item::Node(n)) => snap.name_of(n).to_owned(),
        Some(Item::Link(l)) => joined("link ", snap.link_name(l)),
        None => "nothing".to_owned(),
    }
}

/// What is being looked at: a scenario or a test, by name.
pub fn view_name(scenario: &str, test: Option<&str>) -> (r: String)
    ensures
        r@ == (match test {
            Some(name) => "test “"@ + name@ + "”"@,
            None => "scenario “"@ + scenario@ + "”"@,
        }),
{
    let mut out = match test {
        Some(name) => joined("test “", name),
        None => joined("scenario “", scenario),
    };
    out.append("”");
    out
}

/// How things stand, apart from the network and its load.
pub struct Outlook<'a> {
    /// What is being looked at.
    pub view: &'a str,
    /// How fast the clock runs, in words; nothing while it is stopped.
    pub speed: Option<&'a str>,
    /// Whether the fuse tripped.
    pub tripped: bool,
    /// The node being looked inside.
    pub scope: Option<u64>,
    /// What is selected.
    pub selection: Option<Item>,
}

/// How things stand.
pub open spec fn status_words(
    snap: crate::snapshot::SnapView,
    h: HealthReport,
    o: Outlook,
    tests: crate::checklist::ChecklistView,
) -> Seq<char> {
    let clock = match o.speed {
        Some(speed) => "playing at "@ + speed@ + " ticks/s"@,
        None => "paused"@,
    };
    o.view@ + " · tick "@ + num(h.tick) + " · "@ + clock + "\nload "@ + num(h.transmissions)
        + "/tick (peak "@ + num(h.peak_transmissions) + ") · queued "@ + num(h.pending)
        + " · alerts "@ + num(h.alerts) + " · fuse "@ + (if o.tripped {
        "TRIPPED"@
    } else {
        "ok"@
    }) + "\n"@ + crate::text::decimal_text(snap.nodes.len()) + " nodes · "@
        + crate::text::decimal_text(snap.links.len()) + " links · viewing "@ + viewing_text(
        snap,
        o.scope,
    ) + " · selected "@ + selected_text(snap, o.selection) + "\ntests: "@
        + crate::text::decimal_text(crate::checklist::count(tests.reports, true)) + " passed, "@
        + crate::text::decimal_text(crate::checklist::count(tests.reports, false))
        + " failed of "@ + crate::text::decimal_text(tests.reports.len()) + (if tests.busy {
        " (running)"@
    } else {
        ""@
    })
}

/// How things stand.
pub fn status(snap: &Snapshot, h: &HealthReport, o: &Outlook, tests: &Checklist) -> (r: String)
    ensures
        r@ == status_words(snap@, *h, *o, tests@),
{
    let (passed, failed, total) = tests.counts();
    let clock = match o.speed {
        Some(speed) => {
            let mut text = joined("playing at ", speed);
            text.append(" ticks/s");
            text
        },
        None => "paused".to_owned(),
    };
    let mut out = o.view.to_owned();
    out.append(" · tick ");
    out.append(decimal(h.tick).as_str());
    out.append(" · ");
    out.append(clock.as_str());
    out.append("\nload ");
    out.append(decimal(h.transmissions).as_str());
    out.append("/tick (peak ");
    out.append(decimal(h.peak_transmissions).as_str());
    out.append(") · queued ");
    out.append(decimal(h.pending).as_str());
    out.append(" · alerts ");
    out.append(decimal(h.alerts).as_str());
    out.append(" · fuse ");
    out.append(
        if o.tripped {
            "TRIPPED"
        } else {
            "ok"
        },
    );
    out.append("\n");
    out.append(decimal(snap.node_count() as u64).as_str());
    out.append(" nodes · ");
    out.append(decimal(snap.link_count() as u64).as_str());
    out.append(" links · viewing ");
    out.append(viewing(snap, o.scope).as_str());
    out.append(" · selected ");
    out.append(selected(snap, o.selection).as_str());
    out.append("\ntests: ");
    out.append(decimal(passed as u64).as_str());
    out.append(" passed, ");
    out.append(decimal(failed as u64).as_str());
    out.append(" failed of ");
    out.append(decimal(total as u64).as_str());
    out.append(
        if tests.is_running() {
            " (running)"
        } else {
            ""
        },
    );
    out
}

// ---- Lists ----------------------------------------------------------------------------------

/// The first `n` scenarios, one per line.
pub open spec fn scenario_lines(scenarios: Seq<Entry>, n: nat) -> Seq<char>
    decreases n,
{
    if n == 0 {
        Seq::empty()
    } else {
        let s = scenarios[n - 1];
        scenario_lines(scenarios, (n - 1) as nat) + crate::text::padded(s.name@, 16) + " "@
            + s.description@ + "\n"@
    }
}

/// The scenarios, one per line.
pub fn scenario_list(scenarios: &Vec<Entry>) -> (r: String)
    ensures
        r@ == crate::text::trim_end(scenario_lines(scenarios@, scenarios@.len())),
{
    let mut out = String::new();
    let mut i: usize = 0;
    assert(out@ =~= Seq::<char>::empty());
    while i < scenarios.len()
        invariant
            i <= scenarios.len(),
            out@ == scenario_lines(scenarios@, i as nat),
        decreases scenarios.len() - i,
    {
        out.append(pad(scenarios[i].name.as_str(), 16).as_str());
        out.append(" ");
        out.append(scenarios[i].description.as_str());
        out.append("\n");
        i += 1;
    }
    without_trailing_space(out.as_str())
}

/// Whether the `i`th entry starts a new group.
pub open spec fn starts_group(tests: Seq<Entry>, i: int) -> bool {
    tests[i].group@ != if i == 0 {
        ""@
    } else {
        tests[i - 1].group@
    }
}

/// The first `n` tests, one per line under their groups.
pub open spec fn test_lines(
    tests: Seq<Entry>,
    list: crate::checklist::ChecklistView,
    n: nat,
) -> Seq<char>
    decreases n,
{
    if n == 0 {
        Seq::empty()
    } else {
        let t = tests[n - 1];
        let before = test_lines(tests, list, (n - 1) as nat);
        let start = if starts_group(tests, n - 1) {
            before + t.group@ + "\n"@
        } else {
            before
        };
        start + "  "@ + list.status(n - 1).symbol() + " "@ + t.name@ + "\n"@
    }
}

/// The tests, one per line under their groups.
pub fn test_list(tests: &Vec<Entry>, list: &Checklist) -> (r: String)
    requires
        list.inv(),
    ensures
        r@ == crate::text::trim_end(test_lines(tests@, list@, tests@.len())),
{
    let mut out = String::new();
    let mut i: usize = 0;
    assert(out@ =~= Seq::<char>::empty());
    while i < tests.len()
        invariant
            list.inv(),
            i <= tests.len(),
            out@ == test_lines(tests@, list@, i as nat),
        decreases tests.len() - i,
    {
        let before = if i == 0 {
            ""
        } else {
            tests[i - 1].group.as_str()
        };
        if !crate::text::same_text(tests[i].group.as_str(), before) {
            out.append(tests[i].group.as_str());
            out.append("\n");
        }
        out.append("  ");
        out.append(list.status(i).icon());
        out.append(" ");
        out.append(tests[i].name.as_str());
        out.append("\n");
        i += 1;
    }
    without_trailing_space(out.as_str())
}

/// How a test ran, briefly.
pub open spec fn run_words(r: TestReport) -> Seq<char> {
    "  ("@ + num(r.ticks) + " ticks, "@ + r.elapsed@ + ", peak "@ + num(r.peak_transmissions)
        + "/tick"@ + (if r.fuse is Some {
        ", fuse tripped"@
    } else {
        ""@
    }) + ")"@
}

/// Those of the first `n` expectations that were not met, one per line.
pub open spec fn unmet_lines(lines: Seq<CheckLine>, n: nat) -> Seq<char>
    decreases n,
{
    if n == 0 {
        Seq::empty()
    } else {
        let l = lines[n - 1];
        let before = unmet_lines(lines, (n - 1) as nat);
        if l.passed {
            before
        } else {
            before + "    ✘ "@ + l.label@ + " — "@ + l.detail@ + "\n"@
        }
    }
}

/// Why a test failed, one reason per line; nothing if it passed.
pub open spec fn failure_lines(r: TestReport) -> Seq<char> {
    if r.passed {
        Seq::empty()
    } else {
        unmet_lines(r.lines@, r.lines@.len()) + match r.error {
            Some(e) => "    ✘ "@ + e@ + "\n"@,
            None => Seq::empty(),
        }
    }
}

/// How a test went.
pub open spec fn result_lines(
    name: Seq<char>,
    status: Status,
    report: Option<TestReport>,
) -> Seq<char> {
    status.symbol() + " "@ + name + match report {
        Some(r) => run_words(r) + "\n"@ + failure_lines(r),
        None => "\n"@,
    }
}

/// How the first `n` tests went.
pub open spec fn results_lines(
    tests: Seq<Entry>,
    list: crate::checklist::ChecklistView,
    failed_only: bool,
    n: nat,
) -> Seq<char>
    decreases n,
{
    if n == 0 {
        Seq::empty()
    } else {
        let before = results_lines(tests, list, failed_only, (n - 1) as nat);
        let status = list.status(n - 1);
        if failed_only && status != Status::Failed {
            before
        } else {
            before + result_lines(
                tests[n - 1].name@,
                status,
                if n - 1 < list.reports.len() {
                    list.reports[n - 1]
                } else {
                    None
                },
            )
        }
    }
}

/// How a test ran, briefly.
fn run_text(r: &TestReport) -> (t: String)
    ensures
        t@ == run_words(*r),
{
    let mut out = "  (".to_owned();
    out.append(decimal(r.ticks).as_str());
    out.append(" ticks, ");
    out.append(r.elapsed.as_str());
    out.append(", peak ");
    out.append(decimal(r.peak_transmissions).as_str());
    out.append("/tick");
    out.append(
        if r.fuse.is_some() {
            ", fuse tripped"
        } else {
            ""
        },
    );
    out.append(")");
    out
}

/// Why a test failed, one reason per line; nothing if it passed.
fn failure_text(r: &TestReport) -> (t: String)
    ensures
        t@ == failure_lines(*r),
{
    let mut out = String::new();
    assert(out@ =~= Seq::<char>::empty());
    if r.passed {
        return out;
    }
    let mut i: usize = 0;
    while i < r.lines.len()
        invariant
            i <= r.lines.len(),
            out@ == unmet_lines(r.lines@, i as nat),
        decreases r.lines.len() - i,
    {
        let line = &r.lines[i];
        if !line.passed {
            out.append("    ✘ ");
            out.append(line.label.as_str());
            out.append(" — ");
            out.append(line.detail.as_str());
            out.append("\n");
        }
        i += 1;
    }
    let ghost unmet = out@;
    match &r.error {
        Some(e) => {
            out.append("    ✘ ");
            out.append(e.as_str());
            out.append("\n");
            assert(out@ =~= unmet + ("    ✘ "@ + e@ + "\n"@));
        },
        None => {
            assert(out@ =~= unmet + Seq::<char>::empty());
        },
    }
    out
}

/// How a test went.
fn result_text(name: &str, status: Status, report: Option<&TestReport>) -> (t: String)
    ensures
        t@ == result_lines(
            name@,
            status,
            match report {
                Some(r) => Some(*r),
                None => None,
            },
        ),
{
    let mut out = status.icon().to_owned();
    out.append(" ");
    out.append(name);
    let ghost start = out@;
    match report {
        Some(r) => {
            out.append(run_text(r).as_str());
            out.append("\n");
            out.append(failure_text(r).as_str());
            assert(out@ =~= start + (run_words(*r) + "\n"@ + failure_lines(*r)));
        },
        None => {
            out.append("\n");
        },
    }
    out
}

/// How the tests went, and whether none failed.
pub fn results(tests: &Vec<Entry>, list: &Checklist, failed_only: bool) -> (r: (bool, String))
    requires
        list.inv(),
    ensures
        r.0 == (crate::checklist::count(list@.reports, false) == 0),
        r.1@ == results_lines(tests@, list@, failed_only, tests@.len())
            + crate::text::decimal_text(crate::checklist::count(list@.reports, true))
            + " passed, "@ + crate::text::decimal_text(
            crate::checklist::count(list@.reports, false),
        ) + " failed of "@ + crate::text::decimal_text(list@.reports.len()),
{
    let mut out = String::new();
    let mut i: usize = 0;
    assert(out@ =~= Seq::<char>::empty());
    while i < tests.len()
        invariant
            list.inv(),
            i <= tests.len(),
            out@ == results_lines(tests@, list@, failed_only, i as nat),
        decreases tests.len() - i,
    {
        let status = list.status(i);
        if !failed_only || status == Status::Failed {
            out.append(result_text(tests[i].name.as_str(), status, list.report(i)).as_str());
        }
        i += 1;
    }
    let (passed, failed, total) = list.counts();
    out.append(decimal(passed as u64).as_str());
    out.append(" passed, ");
    out.append(decimal(failed as u64).as_str());
    out.append(" failed of ");
    out.append(decimal(total as u64).as_str());
    (failed == 0, out)
}

// ---- The network ----------------------------------------------------------------------------

/// A node in words.
pub open spec fn node_words(snap: crate::snapshot::SnapView, n: NodeEntry) -> Seq<char> {
    snap.shown_name(n.id) + " ("@ + n.kind@ + (match n.logic {
        Some(l) => " · "@ + l@,
        None => ""@,
    }) + ")\n  parent: "@ + (match n.parent {
        Some(p) => snap.shown_name(p),
        None => "none"@,
    }) + "\n  on links: "@ + crate::text::join_text(
        link_names(snap, n.subscriptions@),
        ", "@,
    ) + "\n  owns links: "@ + crate::text::join_text(
        link_names(snap, n.internal_links@),
        ", "@,
    ) + "\n  children: "@ + (if n.children@.len() == 0 {
        "none"@
    } else {
        crate::text::join_text(shown_names(snap, n.children@), ", "@)
    }) + "\n  sent "@ + num(n.sent) + " · received "@ + num(n.received)
}

/// A node in words.
pub fn node_info(snap: &Snapshot, n: &NodeEntry) -> (r: String)
    ensures
        r@ == node_words(snap@, *n),
{
    let mut out = snap.name_of(n.id).to_owned();
    out.append(" (");
    out.append(n.kind.as_str());
    let logic = match &n.logic {
        Some(l) => joined(" · ", l.as_str()),
        None => "".to_owned(),
    };
    out.append(logic.as_str());
    out.append(")\n  parent: ");
    out.append(
        match n.parent {
            Some(p) => snap.name_of(p),
            None => "none",
        },
    );
    out.append("\n  on links: ");
    out.append(join(&link_names_of(snap, &n.subscriptions), ", ").as_str());
    out.append("\n  owns links: ");
    out.append(join(&link_names_of(snap, &n.internal_links), ", ").as_str());
    out.append("\n  children: ");
    let children = if n.children.len() == 0 {
        "none".to_owned()
    } else {
        join(&names_of(snap, &n.children), ", ")
    };
    out.append(children.as_str());
    out.append("\n  sent ");
    out.append(decimal(n.sent).as_str());
    out.append(" · received ");
    out.append(decimal(n.received).as_str());
    out
}

/// What the latest of `n` things are when `last` are asked for: from where on.
pub open spec fn from_last(n: nat, last: nat) -> int {
    if last < n {
        n - last
    } else {
        0
    }
}

/// An alert in words.
pub open spec fn alert_line(
    snap: crate::snapshot::SnapView,
    a: crate::report::AlertReportView,
) -> Seq<char> {
    "t"@ + crate::text::padded(num(a.tick), 6) + a.severity.text() + " "@ + a.check + " · "@
        + snap.subject_name(a.subject) + ": "@ + a.message
}

/// The latest alerts in words, one per line.
pub open spec fn alert_lines(
    snap: crate::snapshot::SnapView,
    alerts: Seq<crate::report::AlertReportView>,
    last: nat,
) -> Seq<Seq<char>> {
    alerts.skip(from_last(alerts.len(), last)).map_values(
        |a: crate::report::AlertReportView| alert_line(snap, a),
    )
}

/// The latest alerts in words, one per line.
pub fn alerts(snap: &Snapshot, activity: &Activity, last: usize) -> (r: String)
    ensures
        ({
            let lines = alert_lines(snap@, activity@.alerts, last as nat);
            r@ == (if lines.len() == 0 {
                "no alerts"@
            } else {
                crate::text::join_text(lines, "\n"@)
            })
        }),
{
    let all = activity.alerts();
    let ghost views = activity@.alerts;
    let ghost lines = alert_lines(snap@, views, last as nat);
    let start: usize = if last < all.len() {
        all.len() - last
    } else {
        0
    };
    let mut out: Vec<String> = Vec::new();
    let mut i: usize = start;
    while i < all.len()
        invariant
            start <= i <= all.len(),
            start == from_last(views.len(), last as nat),
            views == crate::report::report_views(all@),
            lines == alert_lines(snap@, views, last as nat),
            out@.len() == i - start,
            forall|j: int| 0 <= j < out@.len() ==> (#[trigger] out@[j])@ == lines[j],
        decreases all.len() - i,
    {
        let a = &all[i];
        let mut line = joined("t", pad(decimal(a.tick).as_str(), 6).as_str());
        line.append(
            match a.severity {
                Severity::Warning => "Warning",
                Severity::Error => "Error",
            },
        );
        line.append(" ");
        line.append(a.check.as_str());
        line.append(" · ");
        line.append(snap.subject_name(a.subject).as_str());
        line.append(": ");
        line.append(a.message.as_str());
        proof {
            assert(views.skip(start as int)[i - start] == a@);
            assert(line@ =~= lines[i - start]);
        }
        out.push(line);
        i += 1;
    }
    assert(crate::text::texts(out@) =~= lines);
    if out.len() == 0 {
        "no alerts".to_owned()
    } else {
        join(&out, "\n")
    }
}

/// A line of the traffic log with its tick.
pub open spec fn log_line(l: crate::activity::LineView) -> Seq<char> {
    "t"@ + crate::text::padded(num(l.tick), 6) + l.text
}

/// The latest lines of the traffic log.
pub fn log(activity: &Activity, last: usize) -> (r: Vec<String>)
    ensures
        crate::text::texts(r@) == activity@.log.skip(
            from_last(activity@.log.len(), last as nat),
        ).map_values(|l: crate::activity::LineView| log_line(l)),
{
    let n: usize = activity.log_len();
    let start: usize = if last < n {
        n - last
    } else {
        0
    };
    let ghost shown = activity@.log.skip(start as int);
    let ghost lines = shown.map_values(|l: crate::activity::LineView| log_line(l));
    let mut out: Vec<String> = Vec::new();
    let mut i: usize = start;
    while i < n
        invariant
            start <= i <= n,
            n == activity@.log.len(),
            shown == activity@.log.skip(start as int),
            lines == shown.map_values(|l: crate::activity::LineView| log_line(l)),
            out@.len() == i - start,
            forall|j: int| 0 <= j < out@.len() ==> (#[trigger] out@[j])@ == lines[j],
        decreases n - i,
    {
        let l = activity.line(i);
        let mut line = joined("t", pad(decimal(l.tick).as_str(), 6).as_str());
        line.append(l.text.as_str());
        assert(shown[i - start] == l@);
        assert(line@ =~= lines[i - start]);
        out.push(line);
        i += 1;
    }
    assert(crate::text::texts(out@) =~= lines);
    out
}

/// Names with counts.
pub open spec fn node_counts(
    snap: crate::snapshot::SnapView,
    counts: Seq<(u64, u64)>,
) -> Seq<Seq<char>> {
    counts.map_values(|c: (u64, u64)| snap.shown_name(c.0) + " ("@ + num(c.1) + ")"@)
}

/// Link names with counts.
pub open spec fn link_counts(
    snap: crate::snapshot::SnapView,
    counts: Seq<(u64, u64)>,
) -> Seq<Seq<char>> {
    counts.map_values(|c: (u64, u64)| snap.link_name(c.0) + " ("@ + num(c.1) + ")"@)
}

/// The first `n` likely causes, one per line.
pub open spec fn cause_lines(alerts: Seq<AlertReport>, n: nat) -> Seq<char>
    decreases n,
{
    if n == 0 {
        Seq::empty()
    } else {
        let a = alerts[n - 1];
        cause_lines(alerts, (n - 1) as nat) + "\n    t"@ + num(a.tick) + " "@ + a.check@ + ": "@
            + a.message@
    }
}

/// Why the fuse tripped, in words.
pub open spec fn fuse_report_words(
    snap: crate::snapshot::SnapView,
    f: FuseSummary,
) -> Seq<char> {
    "FUSE TRIPPED at tick "@ + num(f.tick) + ": "@ + crate::report::limit_words(f.limit@, f.max)
        + " ("@ + num(f.held_back) + " packets held back). World paused.\n  busiest senders: "@
        + crate::text::join_text(node_counts(snap, f.top_senders@), ", "@)
        + "\n  busiest links: "@ + crate::text::join_text(link_counts(snap, f.top_links@), ", "@)
        + (if f.recent_alerts@.len() == 0 {
        Seq::empty()
    } else {
        "\n  likely causes, earliest first:"@ + cause_lines(
            f.recent_alerts@,
            f.recent_alerts@.len(),
        )
    })
}

/// A name with a count.
fn counted(name: &str, n: u64) -> (r: String)
    ensures
        r@ == name@ + " ("@ + num(n) + ")"@,
{
    let mut out = joined(name, " (");
    out.append(decimal(n).as_str());
    out.append(")");
    out
}

/// The likely causes, one per line.
fn causes(alerts: &Vec<AlertReport>) -> (r: String)
    ensures
        r@ == cause_lines(alerts@, alerts@.len()),
{
    let mut out = String::new();
    let mut i: usize = 0;
    assert(out@ =~= Seq::<char>::empty());
    while i < alerts.len()
        invariant
            i <= alerts.len(),
            out@ == cause_lines(alerts@, i as nat),
        decreases alerts.len() - i,
    {
        out.append("\n    t");
        out.append(decimal(alerts[i].tick).as_str());
        out.append(" ");
        out.append(alerts[i].check.as_str());
        out.append(": ");
        out.append(alerts[i].message.as_str());
        i += 1;
    }
    out
}

/// Why the fuse tripped, in words.
pub fn fuse_text(snap: &Snapshot, f: &FuseSummary) -> (r: String)
    ensures
        r@ == fuse_report_words(snap@, *f),
{
    let mut senders: Vec<String> = Vec::new();
    let ghost sender_words = node_counts(snap@, f.top_senders@);
    let mut i: usize = 0;
    while i < f.top_senders.len()
        invariant
            i <= f.top_senders.len(),
            sender_words == node_counts(snap@, f.top_senders@),
            senders@.len() == i,
            forall|j: int| 0 <= j < i ==> (#[trigger] senders@[j])@ == sender_words[j],
        decreases f.top_senders.len() - i,
    {
        let (node, count) = f.top_senders[i];
        senders.push(counted(snap.name_of(node), count));
        i += 1;
    }
    assert(crate::text::texts(senders@) =~= sender_words);
    let mut links: Vec<String> = Vec::new();
    let ghost link_words = link_counts(snap@, f.top_links@);
    let mut k: usize = 0;
    while k < f.top_links.len()
        invariant
            k <= f.top_links.len(),
            link_words == link_counts(snap@, f.top_links@),
            links@.len() == k,
            forall|j: int| 0 <= j < k ==> (#[trigger] links@[j])@ == link_words[j],
        decreases f.top_links.len() - k,
    {
        let (link, count) = f.top_links[k];
        links.push(counted(snap.link_name(link), count));
        k += 1;
    }
    assert(crate::text::texts(links@) =~= link_words);
    let mut out = "FUSE TRIPPED at tick ".to_owned();
    out.append(decimal(f.tick).as_str());
    out.append(": ");
    out.append(f.limit_text().as_str());
    out.append(" (");
    out.append(decimal(f.held_back).as_str());
    out.append(" packets held back). World paused.\n  busiest senders: ");
    out.append(join(&senders, ", ").as_str());
    out.append("\n  busiest links: ");
    out.append(join(&links, ", ").as_str());
    let ghost start = out@;
    if f.recent_alerts.len() > 0 {
        out.append("\n  likely causes, earliest first:");
        out.append(causes(&f.recent_alerts).as_str());
        assert(out@ =~= start + ("\n  likely causes, earliest first:"@ + cause_lines(
            f.recent_alerts@,
            f.recent_alerts@.len(),
        )));
    } else {
        assert(out@ =~= start + Seq::<char>::empty());
    }
    out
}

// ---- What was done --------------------------------------------------------------------------

/// What running ticks did: ticks run, packets and alerts seen, and why the fuse tripped if it did.
pub fn step_text(
    ran: u32,
    packets: u64,
    new_alerts: u64,
    h: &HealthReport,
    fuse: Option<&str>,
) -> (r: String)
    ensures
        r@ == "ran "@ + num(ran as u64) + " tick"@ + (if ran == 1 {
            ""@
        } else {
            "s"@
        }) + " → tick "@ + num(h.tick) + " · "@ + num(packets) + " packets · "@ + num(new_alerts)
            + " new alerts · load "@ + num(h.transmissions) + "/tick"@ + (match fuse {
            Some(why) => "\n"@ + why@,
            None => ""@,
        }),
{
    let mut out = "ran ".to_owned();
    out.append(decimal(ran as u64).as_str());
    out.append(" tick");
    out.append(
        if ran == 1 {
            ""
        } else {
            "s"
        },
    );
    out.append(" → tick ");
    out.append(decimal(h.tick).as_str());
    out.append(" · ");
    out.append(decimal(packets).as_str());
    out.append(" packets · ");
    out.append(decimal(new_alerts).as_str());
    out.append(" new alerts · load ");
    out.append(decimal(h.transmissions).as_str());
    out.append("/tick");
    let end = match fuse {
        Some(why) => joined("\n", why),
        None => "".to_owned(),
    };
    out.append(end.as_str());
    out
}

/// The fuse's limits in words.
pub fn limits_text(l: &LimitsReport) -> (r: String)
    ensures
        r@ == "fuse limits: "@ + num(l.max_transmissions_per_tick) + " sent/tick · "@ + num(
            l.max_deliveries_per_tick,
        ) + " delivered/tick · "@ + num(l.max_pending) + " queued · "@ + num(l.max_payload_bytes)
            + " payload bytes"@,
{
    let mut out = "fuse limits: ".to_owned();
    out.append(decimal(l.max_transmissions_per_tick).as_str());
    out.append(" sent/tick · ");
    out.append(decimal(l.max_deliveries_per_tick).as_str());
    out.append(" delivered/tick · ");
    out.append(decimal(l.max_pending).as_str());
    out.append(" queued · ");
    out.append(decimal(l.max_payload_bytes).as_str());
    out.append(" payload bytes");
    out
}

/// That a packet is on its way.
pub fn sent_text(from: &str, via: &str, to: &str, kind: &str) -> (r: String)
    ensures
        r@ == from@ + " ─"@ + kind@ + "→ "@ + to@ + " via "@ + via@
            + ": queued for the next tick"@,
{
    let mut out = joined(from, " ─");
    out.append(kind);
    out.append("→ ");
    out.append(to);
    out.append(" via ");
    out.append(via);
    out.append(": queued for the next tick");
    out
}

/// That a packet is on its way, and when it arrives.
pub fn queued_text(kind: &str, to: &str, playing: bool) -> (r: String)
    ensures
        r@ == kind@ + " → "@ + to@ + " queued, delivered "@ + (if playing {
            "on the next tick"@
        } else {
            "when you step"@
        }),
{
    let mut out = joined(kind, " → ");
    out.append(to);
    out.append(" queued, delivered ");
    out.append(
        if playing {
            "on the next tick"
        } else {
            "when you step"
        },
    );
    out
}

/// That a node runs other logic now.
pub fn logic_text(node: &str, kind: &str) -> (r: String)
    ensures
        r@ == node@ + " now runs "@ + kind@,
{
    let mut out = joined(node, " now runs ");
    out.append(kind);
    out
}

/// What the banner about a tripped fuse says.
pub fn trip_text(f: &FuseSummary) -> (r: String)
    ensures
        r@ == "Tick "@ + num(f.tick) + ": hit the limit of "@ + crate::report::limit_words(
            f.limit@,
            f.max,
        ) + ". "@ + num(f.held_back) + " packets held back."@,
{
    let mut out = "Tick ".to_owned();
    out.append(decimal(f.tick).as_str());
    out.append(": hit the limit of ");
    out.append(f.limit_text().as_str());
    out.append(". ");
    out.append(decimal(f.held_back).as_str());
    out.append(" packets held back.");
    out
}

/// How a test ran, beside its name in the checklist.
pub fn run_summary(r: &TestReport) -> (t: String)
    ensures
        t@ == num(r.ticks) + " ticks · "@ + r.elapsed@ + " · peak "@ + num(r.peak_transmissions)
            + "/tick · "@ + num(r.alerts as u64) + " alerts"@ + (if r.fuse is Some {
            " · fuse tripped"@
        } else {
            ""@
        }),
{
    let mut out = decimal(r.ticks);
    out.append(" ticks · ");
    out.append(r.elapsed.as_str());
    out.append(" · peak ");
    out.append(decimal(r.peak_transmissions).as_str());
    out.append("/tick · ");
    out.append(decimal(r.alerts as u64).as_str());
    out.append(" alerts");
    out.append(
        if r.fuse.is_some() {
            " · fuse tripped"
        } else {
            ""
        },
    );
    out
}

/// What the traffic log counts.
pub fn traffic_text(activity: &Activity) -> (r: String)
    ensures
        r@ == num(activity@.packets) + " packets · "@ + num(activity@.drops) + " dropped"@,
{
    let mut out = decimal(activity.packets());
    out.append(" packets · ");
    out.append(decimal(activity.drops()).as_str());
    out.append(" dropped");
    out
}

} // verus!
