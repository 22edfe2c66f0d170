//! Checking how a stress test went: what was seen while it ran, and the expectations held
//! against it.

use vstd::prelude::*;
use vstd::string::*;

use crate::monitor::Severity;
use crate::report::{AlertReport, FuseSummary, HealthReport, TraceEntry};
use crate::text::{decimal, join, joined, same_text};

verus! {

/// What a [`CheckLine`] holds.
#[verifier::ext_equal]
pub struct CheckView {
    pub label: Seq<char>,
    pub passed: bool,
    pub detail: Seq<char>,
}

/// One checked expectation.
#[derive(Debug)]
pub struct CheckLine {
    /// What was expected.
    pub label: String,
    /// Whether it was so.
    pub passed: bool,
    /// What was found.
    pub detail: String,
}

impl View for CheckLine {
    type V = CheckView;

    open spec fn view(&self) -> CheckView {
        CheckView { label: self.label@, passed: self.passed, detail: self.detail@ }
    }
}

/// The lines' contents.
pub open spec fn check_views(lines: Seq<CheckLine>) -> Seq<CheckView> {
    lines.map_values(|l: CheckLine| l@)
}

/// How a test went.
#[derive(Debug)]
pub struct TestReport {
    /// Whether it finished and every expectation was met.
    pub passed: bool,
    /// Its expectations.
    pub lines: Vec<CheckLine>,
    /// Why the test could not finish, if it could not.
    pub error: Option<String>,
    /// Ticks it ran.
    pub ticks: u64,
    /// The most transmissions seen in any one tick.
    pub peak_transmissions: u64,
    /// Alerts seen.
    pub alerts: usize,
    /// Why the fuse tripped, if it did.
    pub fuse: Option<String>,
    /// How long it took, in words.
    pub elapsed: String,
    /// How long it took, in milliseconds.
    pub elapsed_ms: u64,
}

impl TestReport {
    /// A test that could not run.
    pub fn error(error: String, elapsed: String, elapsed_ms: u64) -> (r: Self)
        ensures
            !r.passed,
            r.lines@.len() == 0,
            r.error == Some(error),
            r.ticks == 0,
            r.peak_transmissions == 0,
            r.alerts == 0,
            r.fuse is None,
            r.elapsed == elapsed,
            r.elapsed_ms == elapsed_ms,
    {
        TestReport {
            passed: false,
            lines: Vec::new(),
            error: Some(error),
            ticks: 0,
            peak_transmissions: 0,
            alerts: 0,
            fuse: None,
            elapsed,
            elapsed_ms,
        }
    }
}

/// What a [`Probe`] holds.
#[verifier::ext_equal]
pub struct ProbeView {
    pub lines: Seq<CheckView>,
    pub alerts: Seq<crate::report::AlertReportView>,
    pub notes: Seq<Seq<char>>,
    pub fuse: Option<FuseSummary>,
    pub ticks: u64,
    pub health: HealthReport,
}

/// The first alert from `check` that is at least as bad as `least`.
pub open spec fn first_alert(
    alerts: Seq<crate::report::AlertReportView>,
    check: Seq<char>,
    least: Severity,
) -> Option<crate::report::AlertReportView>
    decreases alerts.len(),
{
    if alerts.len() == 0 {
        None
    } else if alerts[0].check == check && alerts[0].severity.covers(least) {
        Some(alerts[0])
    } else {
        first_alert(alerts.drop_first(), check, least)
    }
}

/// How bad an alert has to be, in words.
pub open spec fn severity_words(least: Severity) -> Seq<char> {
    match least {
        Severity::Warning => "warning or worse"@,
        Severity::Error => "error"@,
    }
}

/// When an alert was raised, in words; `none` if it was not.
pub open spec fn raised_words(
    found: Option<crate::report::AlertReportView>,
    none: Seq<char>,
) -> Seq<char> {
    match found {
        Some(a) => "raised on tick "@ + crate::text::decimal_text(a.tick as nat),
        None => none,
    }
}

/// How the fuse tripped, in words.
pub open spec fn fuse_words(fuse: Option<FuseSummary>) -> Seq<char> {
    match fuse {
        Some(f) => f.limit@ + " limit on tick "@ + crate::text::decimal_text(f.tick as nat),
        None => "never tripped"@,
    }
}

/// An alert by check and tick.
pub open spec fn alert_words(a: crate::report::AlertReportView) -> Seq<char> {
    a.check + " (tick "@ + crate::text::decimal_text(a.tick as nat) + ")"@
}

impl ProbeView {
    /// With one more expectation checked.
    pub open spec fn checked(
        self,
        label: Seq<char>,
        passed: bool,
        detail: Seq<char>,
    ) -> ProbeView {
        ProbeView { lines: self.lines.push(CheckView { label, passed, detail }), ..self }
    }

    /// With a tick's trace looked through for alerts and notes.
    pub open spec fn observed(self, entries: Seq<TraceEntry>) -> ProbeView
        decreases entries.len(),
    {
        if entries.len() == 0 {
            self
        } else {
            let before = self.observed(entries.drop_last());
            match entries.last() {
                TraceEntry::Alert(a) => ProbeView { alerts: before.alerts.push(a@), ..before },
                TraceEntry::Note { text, .. } => ProbeView {
                    notes: before.notes.push(text@),
                    ..before
                },
                _ => before,
            }
        }
    }

    /// The first alert from `check` that is at least as bad as `least`.
    pub open spec fn found(
        self,
        check: Seq<char>,
        least: Severity,
    ) -> Option<crate::report::AlertReportView> {
        first_alert(self.alerts, check, least)
    }

    /// What is said of the alerts where there should be none.
    pub open spec fn alarm_words(self) -> Seq<char> {
        if self.alerts.len() == 0 {
            "none"@
        } else {
            let shown = self.alerts.take(
                if self.alerts.len() < 3 {
                    self.alerts.len() as int
                } else {
                    3
                },
            );
            crate::text::decimal_text(self.alerts.len()) + " raised: "@ + crate::text::join_text(
                shown.map_values(|a: crate::report::AlertReportView| alert_words(a)),
                ", "@,
            )
        }
    }

    /// Whether the fuse report names an alert from `check`.
    pub open spec fn names_cause(self, check: Seq<char>) -> bool {
        self.fuse matches Some(f) && exists|i: int|
            0 <= i < f.recent_alerts@.len() && (#[trigger] f.recent_alerts@[i]).check@ == check
    }

    /// Whether nothing got past the fuse.
    pub open spec fn within_limits(self) -> bool {
        let h = self.health;
        h.peak_transmissions <= h.limits.max_transmissions_per_tick && h.pending
            <= h.limits.max_pending
    }

    /// How the load compares with the limits.
    pub open spec fn limit_words(self) -> Seq<char> {
        let h = self.health;
        "peak "@ + crate::text::decimal_text(h.peak_transmissions as nat) + " / "@
            + crate::text::decimal_text(h.limits.max_transmissions_per_tick as nat)
            + " packets per tick, "@ + crate::text::decimal_text(h.pending as nat) + " / "@
            + crate::text::decimal_text(h.limits.max_pending as nat) + " queued"@
    }

    /// Whether every expectation was met, and there was one.
    pub open spec fn all_passed(self) -> bool {
        self.lines.len() > 0 && forall|i: int|
            0 <= i < self.lines.len() ==> (#[trigger] self.lines[i]).passed
    }
}

/// What a test has seen of its world, and the expectations checked so far.
#[derive(Debug)]
pub struct Probe {
    lines: Vec<CheckLine>,
    alerts: Vec<AlertReport>,
    notes: Vec<String>,
    fuse: Option<FuseSummary>,
    ticks: u64,
    health: HealthReport,
}

impl View for Probe {
    type V = ProbeView;

    closed spec fn view(&self) -> ProbeView {
        ProbeView {
            lines: check_views(self.lines@),
            alerts: crate::report::report_views(self.alerts@),
            notes: crate::text::texts(self.notes@),
            fuse: self.fuse,
            ticks: self.ticks,
            health: self.health,
        }
    }
}

/// Says when an alert was raised.
fn raised_text(found: Option<&AlertReport>, none: &str) -> (r: String)
    ensures
        r@ == raised_words(
            match found {
                Some(a) => Some(a@),
                None => None,
            },
            none@,
        ),
{
    match found {
        Some(a) => joined("raised on tick ", decimal(a.tick).as_str()),
        None => none.to_owned(),
    }
}

impl Probe {
    /// Nothing is seen yet.
    pub fn new(health: HealthReport) -> (r: Self)
        ensures
            r@ == (ProbeView {
                lines: Seq::empty(),
                alerts: Seq::empty(),
                notes: Seq::empty(),
                fuse: None,
                ticks: 0,
                health,
            }),
    {
        let r = Probe {
            lines: Vec::new(),
            alerts: Vec::new(),
            notes: Vec::new(),
            fuse: None,
            ticks: 0,
            health,
        };
        assert(r@ =~= ProbeView {
            lines: Seq::empty(),
            alerts: Seq::empty(),
            notes: Seq::empty(),
            fuse: None,
            ticks: 0,
            health,
        });
        r
    }

    /// A tick ran.
    pub fn ticked(&mut self)
        ensures
            final(self)@ == (ProbeView { ticks: crate::trace::bump(old(self)@.ticks), ..old(self)@ }),
    {
        self.ticks = self.ticks.saturating_add(1);
        assert(self@ =~= ProbeView { ticks: crate::trace::bump(old(self)@.ticks), ..old(self)@ });
    }

    /// Takes note of the alerts and notes in a tick's trace.
    pub fn observe(&mut self, entries: &Vec<TraceEntry>)
        ensures
            final(self)@ == old(self)@.observed(entries@),
    {
        let mut i: usize = 0;
        assert(entries@.take(0) =~= Seq::<TraceEntry>::empty());
        while i < entries.len()
            invariant
                i <= entries.len(),
                self@ == old(self)@.observed(entries@.take(i as int)),
            decreases entries.len() - i,
        {
            let ghost before = self@;
            match &entries[i] {
                TraceEntry::Alert(a) => {
                    self.alerts.push(a.clone());
                    assert(self@ =~= ProbeView { alerts: before.alerts.push(a@), ..before });
                },
                TraceEntry::Note { text, .. } => {
                    self.notes.push(text.clone());
                    assert(self@ =~= ProbeView { notes: before.notes.push(text@), ..before });
                },
                _ => {},
            }
            i += 1;
            proof {
                assert(entries@.take(i as int).drop_last() =~= entries@.take(i - 1));
                assert(entries@.take(i as int).last() == entries@[i - 1]);
            }
        }
        assert(entries@.take(i as int) =~= entries@);
    }

    /// The fuse tripped. Only the first time is remembered.
    pub fn tripped(&mut self, report: Option<FuseSummary>)
        ensures
            final(self)@ == (ProbeView {
                fuse: if old(self)@.fuse is Some {
                    old(self)@.fuse
                } else {
                    report
                },
                ..old(self)@
            }),
    {
        if self.fuse.is_none() {
            self.fuse = report;
        }
        assert(self@ =~= ProbeView {
            fuse: if old(self)@.fuse is Some {
                old(self)@.fuse
            } else {
                report
            },
            ..old(self)@
        });
    }

    /// The world's load changed.
    pub fn set_health(&mut self, health: HealthReport)
        ensures
            final(self)@ == (ProbeView { health, ..old(self)@ }),
    {
        self.health = health;
        assert(self@ =~= ProbeView { health, ..old(self)@ });
    }

    /// Whether the fuse has tripped.
    pub fn has_tripped(&self) -> (r: bool)
        ensures
            r == (self@.fuse is Some),
    {
        self.fuse.is_some()
    }

    /// The notes seen.
    pub fn notes(&self) -> (r: &Vec<String>)
        ensures
            crate::text::texts(r@) == self@.notes,
    {
        &self.notes
    }

    /// The world's load as last seen.
    pub fn health(&self) -> (r: HealthReport)
        ensures
            r == self@.health,
    {
        self.health
    }

    /// Records an expectation.
    pub fn check(&mut self, label: String, passed: bool, detail: String)
        ensures
            final(self)@ == old(self)@.checked(label@, passed, detail@),
    {
        self.lines.push(CheckLine { label, passed, detail });
        assert(self@ =~= old(self)@.checked(label@, passed, detail@));
    }

    /// The first alert from `check` that is at least as bad as `least`.
    pub fn first_alert(&self, check: &str, least: Severity) -> (r: Option<&AlertReport>)
        ensures
            self@.found(check@, least) == (match r {
                Some(a) => Some(a@),
                None => None,
            }),
    {
        let ghost views = crate::report::report_views(self.alerts@);
        let mut i: usize = 0;
        assert(views.skip(0) =~= views);
        while i < self.alerts.len()
            invariant
                i <= self.alerts.len(),
                views == crate::report::report_views(self.alerts@),
                first_alert(views, check@, least) == first_alert(
                    views.skip(i as int),
                    check@,
                    least,
                ),
            decreases self.alerts.len() - i,
        {
            let a = &self.alerts[i];
            proof {
                assert(views.skip(i as int)[0] == a@);
                assert(views.skip(i as int).drop_first() =~= views.skip(i + 1));
            }
            if same_text(a.check.as_str(), check) && a.severity.at_least(least) {
                return Some(a);
            }
            i += 1;
        }
        None
    }

    /// Expects an alert from `check` that is at least as bad as `least`.
    pub fn expect_alert(&mut self, check: &str, least: Severity)
        ensures
            final(self)@ == old(self)@.checked(
                check@ + " alert ("@ + severity_words(least) + ")"@,
                old(self)@.found(check@, least) is Some,
                match old(self)@.found(check@, least) {
                    Some(a) => "tick "@ + crate::text::decimal_text(a.tick as nat) + ": "@
                        + a.message,
                    None => "never raised"@,
                },
            ),
    {
        let (passed, detail) = match self.first_alert(check, least) {
            Some(a) => {
                let mut out = "tick ".to_owned();
                out.append(decimal(a.tick).as_str());
                out.append(": ");
                out.append(a.message.as_str());
                (true, out)
            },
            None => (false, "never raised".to_owned()),
        };
        let mut label = check.to_owned();
        label.append(" alert (");
        label.append(
            match least {
                Severity::Warning => "warning or worse",
                Severity::Error => "error",
            },
        );
        label.append(")");
        self.check(label, passed, detail);
    }

    /// Expects an alert from `check` no later than `tick`.
    pub fn expect_alert_by(&mut self, check: &str, tick: u64)
        ensures
            ({
                let found = old(self)@.found(check@, Severity::Warning);
                final(self)@ == old(self)@.checked(
                    check@ + " alert by tick "@ + crate::text::decimal_text(tick as nat),
                    found matches Some(a) && a.tick <= tick,
                    raised_words(found, "never raised"@),
                )
            }),
    {
        let found = self.first_alert(check, Severity::Warning);
        let passed = match found {
            Some(a) => a.tick <= tick,
            None => false,
        };
        let detail = raised_text(found, "never raised");
        let mut label = check.to_owned();
        label.append(" alert by tick ");
        label.append(decimal(tick).as_str());
        self.check(label, passed, detail);
    }

    /// Expects no alert from `check`.
    pub fn expect_no_alert(&mut self, check: &str)
        ensures
            ({
                let found = old(self)@.found(check@, Severity::Warning);
                final(self)@ == old(self)@.checked(
                    "no "@ + check@ + " alert"@,
                    found is None,
                    raised_words(found, "none"@),
                )
            }),
    {
        let found = self.first_alert(check, Severity::Warning);
        let passed = found.is_none();
        let detail = raised_text(found, "none");
        let mut label = "no ".to_owned();
        label.append(check);
        label.append(" alert");
        self.check(label, passed, detail);
    }

    /// Expects no alerts at all.
    pub fn expect_no_alerts(&mut self)
        ensures
            final(self)@ == old(self)@.checked(
                "no alerts (no false alarms)"@,
                old(self)@.alerts.len() == 0,
                old(self)@.alarm_words(),
            ),
    {
        let n: usize = self.alerts.len();
        let detail = if n == 0 {
            "none".to_owned()
        } else {
            let shown: usize = if n < 3 {
                n
            } else {
                3
            };
            let ghost first = self@.alerts.take(shown as int);
            let ghost words = first.map_values(
                |a: crate::report::AlertReportView| alert_words(a),
            );
            let mut summary: Vec<String> = Vec::new();
            let mut i: usize = 0;
            while i < shown
                invariant
                    i <= shown <= self.alerts.len(),
                    first == self@.alerts.take(shown as int),
                    words == first.map_values(
                        |a: crate::report::AlertReportView| alert_words(a),
                    ),
                    crate::text::texts(summary@) == words.take(i as int),
                decreases shown - i,
            {
                let a = &self.alerts[i];
                let mut text = a.check.clone();
                text.append(" (tick ");
                text.append(decimal(a.tick).as_str());
                text.append(")");
                proof {
                    assert(self@.alerts[i as int] == a@);
                    assert(words[i as int] == alert_words(a@));
                }
                let ghost was = summary@;
                let ghost next = text@;
                assert(next =~= words[i as int]);
                summary.push(text);
                i += 1;
                assert(crate::text::texts(summary@) =~= crate::text::texts(was).push(next));
                assert(words.take(i as int) =~= words.take(i - 1).push(next));
            }
            assert(words.take(i as int) =~= words);
            let mut out = decimal(n as u64);
            out.append(" raised: ");
            out.append(join(&summary, ", ").as_str());
            out
        };
        self.check("no alerts (no false alarms)".to_owned(), n == 0, detail);
    }

    /// Says how the fuse tripped.
    fn fuse_detail(&self) -> (r: String)
        ensures
            r@ == fuse_words(self@.fuse),
    {
        match &self.fuse {
            Some(f) => {
                let mut out = f.limit.clone();
                out.append(" limit on tick ");
                out.append(decimal(f.tick).as_str());
                out
            },
            None => "never tripped".to_owned(),
        }
    }

    /// Expects the fuse to have tripped on `limit`.
    pub fn expect_fuse(&mut self, limit: &str)
        ensures
            final(self)@ == old(self)@.checked(
                "fuse trips ("@ + limit@ + ")"@,
                old(self)@.fuse matches Some(f) && f.limit@ == limit@,
                fuse_words(old(self)@.fuse),
            ),
    {
        let passed = match &self.fuse {
            Some(f) => same_text(f.limit.as_str(), limit),
            None => false,
        };
        let detail = self.fuse_detail();
        let mut label = "fuse trips (".to_owned();
        label.append(limit);
        label.append(")");
        self.check(label, passed, detail);
    }

    /// Expects the fuse to have tripped.
    pub fn expect_fuse_any(&mut self)
        ensures
            final(self)@ == old(self)@.checked(
                "fuse trips"@,
                old(self)@.fuse is Some,
                fuse_words(old(self)@.fuse),
            ),
    {
        let passed = self.fuse.is_some();
        let detail = self.fuse_detail();
        self.check("fuse trips".to_owned(), passed, detail);
    }

    /// Expects the fuse not to have tripped.
    pub fn expect_no_fuse(&mut self)
        ensures
            final(self)@ == old(self)@.checked(
                "fuse does not trip"@,
                old(self)@.fuse is None,
                fuse_words(old(self)@.fuse),
            ),
    {
        let passed = self.fuse.is_none();
        let detail = self.fuse_detail();
        self.check("fuse does not trip".to_owned(), passed, detail);
    }

    /// Expects the fuse report to name an alert from `check`.
    pub fn expect_report_names(&mut self, check: &str)
        ensures
            final(self)@ == old(self)@.checked(
                "fuse report names the cause ("@ + check@ + ")"@,
                old(self)@.names_cause(check@),
                if old(self)@.names_cause(check@) {
                    "yes"@
                } else {
                    "missing from the report"@
                },
            ),
    {
        let named = match &self.fuse {
            Some(f) => names(&f.recent_alerts, check),
            None => false,
        };
        let detail = if named {
            "yes"
        } else {
            "missing from the report"
        };
        let mut label = "fuse report names the cause (".to_owned();
        label.append(check);
        label.append(")");
        self.check(label, named, detail.to_owned());
    }

    /// Expects nothing to have got past the fuse: per-tick sends and the queue stayed within
    /// their limits.
    pub fn expect_bounded(&mut self)
        ensures
            final(self)@ == old(self)@.checked(
                "stays within the hard limits"@,
                old(self)@.within_limits(),
                old(self)@.limit_words(),
            ),
    {
        let h = self.health;
        let passed = h.peak_transmissions <= h.limits.max_transmissions_per_tick && h.pending
            <= h.limits.max_pending;
        let mut detail = "peak ".to_owned();
        detail.append(decimal(h.peak_transmissions).as_str());
        detail.append(" / ");
        detail.append(decimal(h.limits.max_transmissions_per_tick).as_str());
        detail.append(" packets per tick, ");
        detail.append(decimal(h.pending).as_str());
        detail.append(" / ");
        detail.append(decimal(h.limits.max_pending).as_str());
        detail.append(" queued");
        self.check("stays within the hard limits".to_owned(), passed, detail);
    }

    /// Expects traffic to have died out.
    pub fn expect_quiet(&mut self)
        ensures
            final(self)@ == old(self)@.checked(
                "traffic dies out"@,
                old(self)@.health.transmissions == 0,
                crate::text::decimal_text(old(self)@.health.transmissions as nat)
                    + " packets on the last tick"@,
            ),
    {
        let t: u64 = self.health.transmissions;
        let detail = joined(decimal(t).as_str(), " packets on the last tick");
        self.check("traffic dies out".to_owned(), t == 0, detail);
    }

    /// Expects a call to have been refused with the status `code`. A refusal comes with its
    /// status, where it has one, and in words.
    pub fn expect_status(
        &mut self,
        label: &str,
        outcome: Result<(), (Option<u32>, String)>,
        code: u32,
    )
        ensures
            final(self)@ == old(self)@.checked(
                label@,
                outcome matches Err(e) && e.0 == Some(code),
                match outcome {
                    Ok(_) => "accepted"@,
                    Err(e) => e.1@,
                },
            ),
    {
        match outcome {
            Ok(_) => {
                self.check(label.to_owned(), false, "accepted".to_owned());
            },
            Err((status, words)) => {
                let passed = match status {
                    Some(s) => s == code,
                    None => false,
                };
                self.check(label.to_owned(), passed, words);
            },
        }
    }

    /// How the test went. `outcome` is the error it stopped on, if it did; `stopped` is why it
    /// was stopped from outside, if it was.
    pub fn finish(
        self,
        outcome: Result<(), String>,
        stopped: Option<&str>,
        health: Option<HealthReport>,
        elapsed: String,
        elapsed_ms: u64,
    ) -> (r: TestReport)
        ensures
            ({
                let error = match outcome {
                    Err(e) => Some("unexpected error: "@ + e@),
                    Ok(_) => match stopped {
                        Some(why) => Some(why@),
                        None => None,
                    },
                };
                let h = match health {
                    Some(h) => h,
                    None => self@.health,
                };
                &&& r.passed == (error is None && self@.all_passed())
                &&& check_views(r.lines@) == self@.lines
                &&& crate::activity::opt_text(r.error) == error
                &&& r.ticks == self@.ticks
                &&& r.peak_transmissions == h.peak_transmissions
                &&& r.alerts == self@.alerts.len()
                &&& crate::activity::opt_text(r.fuse) == (match self@.fuse {
                    Some(f) => Some(
                        "tick "@ + crate::text::decimal_text(f.tick as nat) + ": "@
                            + crate::report::limit_words(f.limit@, f.max),
                    ),
                    None => None,
                })
                &&& r.elapsed == elapsed
                &&& r.elapsed_ms == elapsed_ms
            }),
    {
        let error: Option<String> = match outcome {
            Err(e) => Some(joined("unexpected error: ", e.as_str())),
            Ok(_) => match stopped {
                Some(why) => Some(why.to_owned()),
                None => None,
            },
        };
        let health = match health {
            Some(h) => h,
            None => self.health,
        };
        let all = all_passed(&self.lines);
        let fuse: Option<String> = match &self.fuse {
            Some(f) => {
                let mut out = "tick ".to_owned();
                out.append(decimal(f.tick).as_str());
                out.append(": ");
                out.append(f.limit_text().as_str());
                Some(out)
            },
            None => None,
        };
        proof {
            assert(check_views(self.lines@) == self@.lines);
            assert forall|i: int| 0 <= i < self@.lines.len() implies (#[trigger] self@.lines[i]).passed
                == self.lines@[i].passed by {}
        }
        TestReport {
            passed: error.is_none() && all,
            lines: self.lines,
            error,
            ticks: self.ticks,
            peak_transmissions: health.peak_transmissions,
            alerts: self.alerts.len(),
            fuse,
            elapsed,
            elapsed_ms,
        }
    }
}

/// Whether every expectation was met, and there was one.
fn all_passed(lines: &Vec<CheckLine>) -> (r: bool)
    ensures
        r == (lines@.len() > 0 && forall|i: int|
            0 <= i < lines@.len() ==> (#[trigger] check_views(lines@)[i]).passed),
{
    let mut i: usize = 0;
    while i < lines.len()
        invariant
            i <= lines.len(),
            forall|j: int| 0 <= j < i ==> (#[trigger] check_views(lines@)[j]).passed,
        decreases lines.len() - i,
    {
        if !lines[i].passed {
            assert(!check_views(lines@)[i as int].passed);
            return false;
        }
        i += 1;
    }
    lines.len() > 0
}

/// Whether one of the alerts is from `check`.
fn names(alerts: &Vec<AlertReport>, check: &str) -> (r: bool)
    ensures
        r == exists|i: int|
            0 <= i < alerts@.len() && (#[trigger] alerts@[i]).check@ == check@,
{
    let mut i: usize = 0;
    while i < alerts.len()
        invariant
            i <= alerts.len(),
            forall|j: int| 0 <= j < i ==> (#[trigger] alerts@[j]).check@ != check@,
        decreases alerts.len() - i,
    {
        if same_text(alerts[i].check.as_str(), check) {
            assert(alerts@[i as int].check@ == check@);
            return true;
        }
        i += 1;
    }
    false
}

} // verus!
