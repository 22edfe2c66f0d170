//! The stress-test checklist: which tests are waiting, running, passed or failed.

use vstd::prelude::*;
use vstd::string::*;

use crate::probe::TestReport;
use crate::text::decimal;

verus! {

/// Where a test stands.
#[derive(Debug, Clone, Copy, PartialEq, Eq, Structural)]
pub enum Status {
    /// It was not run yet.
    NotRun,
    /// It is waiting to run.
    Queued,
    /// It is running.
    Running,
    /// It ran and passed.
    Passed,
    /// It ran and failed.
    Failed,
}

impl Status {
    /// The status in words.
    pub open spec fn text(self) -> Seq<char> {
        match self {
            Status::NotRun => "not run"@,
            Status::Queued => "queued"@,
            Status::Running => "running"@,
            Status::Passed => "passed"@,
            Status::Failed => "failed"@,
        }
    }

    /// `not run`, `queued`, `running`, `passed` or `failed`.
    pub fn name(self) -> (r: &'static str)
        ensures
            r@ == self.text(),
    {
        match self {
            Status::NotRun => "not run",
            Status::Queued => "queued",
            Status::Running => "running",
            Status::Passed => "passed",
            Status::Failed => "failed",
        }
    }

    /// The status as a symbol.
    pub open spec fn symbol(self) -> Seq<char> {
        match self {
            Status::NotRun => "○"@,
            Status::Queued => "…"@,
            Status::Running => "◌"@,
            Status::Passed => "✔"@,
            Status::Failed => "✘"@,
        }
    }

    /// The status as a symbol.
    pub fn icon(self) -> (r: &'static str)
        ensures
            r@ == self.symbol(),
    {
        match self {
            Status::NotRun => "○",
            Status::Queued => "…",
            Status::Running => "◌",
            Status::Passed => "✔",
            Status::Failed => "✘",
        }
    }
}

/// Progress from whatever runs the tests.
#[derive(Debug)]
pub enum RunnerEvent {
    /// A test started.
    Started(usize),
    /// A test finished.
    Finished(usize, TestReport),
    /// All of them are done.
    Done,
}

/// How many of `reports` say passed, or did not.
pub open spec fn count(reports: Seq<Option<TestReport>>, passed: bool) -> nat
    decreases reports.len(),
{
    if reports.len() == 0 {
        0
    } else {
        count(reports.drop_last(), passed) + match reports.last() {
            Some(r) => if r.passed == passed {
                1nat
            } else {
                0
            },
            None => 0,
        }
    }
}

/// What a [`Checklist`] holds.
#[verifier::ext_equal]
pub struct ChecklistView {
    pub reports: Seq<Option<TestReport>>,
    pub queued: Set<int>,
    pub expanded: Set<int>,
    pub running: Option<usize>,
    pub busy: bool,
}

impl ChecklistView {
    /// Where test `i` stands.
    pub open spec fn status(self, i: int) -> Status {
        if self.running matches Some(r) && r == i {
            Status::Running
        } else if self.queued.contains(i) {
            Status::Queued
        } else if 0 <= i < self.reports.len() {
            match self.reports[i] {
                Some(r) => if r.passed {
                    Status::Passed
                } else {
                    Status::Failed
                },
                None => Status::NotRun,
            }
        } else {
            Status::NotRun
        }
    }

    /// With `tests` waiting to run, and what was known of them forgotten.
    pub open spec fn enqueued(self, tests: Seq<usize>) -> ChecklistView
        decreases tests.len(),
    {
        if tests.len() == 0 {
            self
        } else {
            let before = self.enqueued(tests.drop_last());
            let i = tests.last() as int;
            ChecklistView {
                reports: before.reports.update(i, None),
                queued: before.queued.insert(i),
                ..before
            }
        }
    }

    /// Once something came of running the tests.
    pub open spec fn after(self, event: RunnerEvent) -> ChecklistView {
        match event {
            RunnerEvent::Started(i) => ChecklistView {
                queued: self.queued.remove(i as int),
                running: Some(i),
                ..self
            },
            RunnerEvent::Finished(i, report) => ChecklistView {
                reports: self.reports.update(i as int, Some(report)),
                expanded: if report.passed {
                    self.expanded
                } else {
                    self.expanded.insert(i as int)
                },
                running: None,
                ..self
            },
            RunnerEvent::Done => ChecklistView {
                queued: Set::empty(),
                running: None,
                busy: false,
                ..self
            },
        }
    }
}

/// The places that are marked.
pub open spec fn marked(marks: Seq<bool>) -> Set<int> {
    Set::new(|i: int| 0 <= i < marks.len() && marks[i])
}

/// The stress-test checklist.
#[derive(Debug)]
pub struct Checklist {
    reports: Vec<Option<TestReport>>,
    queued: Vec<bool>,
    expanded: Vec<bool>,
    running: Option<usize>,
    busy: bool,
}

impl View for Checklist {
    type V = ChecklistView;

    closed spec fn view(&self) -> ChecklistView {
        ChecklistView {
            reports: self.reports@,
            queued: marked(self.queued@),
            expanded: marked(self.expanded@),
            running: self.running,
            busy: self.busy,
        }
    }
}

impl Checklist {
    /// Whether each test has its place everywhere.
    pub closed spec fn inv(self) -> bool {
        self.queued@.len() == self.reports@.len() && self.expanded@.len() == self.reports@.len()
    }

    /// A checklist of `total` tests, none of them run.
    pub fn new(total: usize) -> (r: Self)
        ensures
            r.inv(),
            r@.reports == Seq::new(total as nat, |i: int| None::<TestReport>),
            r@.queued == Set::<int>::empty(),
            r@.expanded == Set::<int>::empty(),
            r@.running is None,
            !r@.busy,
    {
        let mut reports: Vec<Option<TestReport>> = Vec::new();
        let mut queued: Vec<bool> = Vec::new();
        let mut expanded: Vec<bool> = Vec::new();
        let mut i: usize = 0;
        while i < total
            invariant
                i <= total,
                reports@ == Seq::new(i as nat, |i: int| None::<TestReport>),
                queued@ == Seq::new(i as nat, |i: int| false),
                expanded@ == Seq::new(i as nat, |i: int| false),
            decreases total - i,
        {
            reports.push(None);
            queued.push(false);
            expanded.push(false);
            i += 1;
            assert(reports@ =~= Seq::new(i as nat, |i: int| None::<TestReport>));
            assert(queued@ =~= Seq::new(i as nat, |i: int| false));
            assert(expanded@ =~= Seq::new(i as nat, |i: int| false));
        }
        assert(marked(queued@) =~= Set::<int>::empty());
        assert(marked(expanded@) =~= Set::<int>::empty());
        Checklist { reports, queued, expanded, running: None, busy: false }
    }

    /// How many tests there are.
    pub fn total(&self) -> (r: usize)
        ensures
            r == self@.reports.len(),
    {
        self.reports.len()
    }

    /// Where test `i` stands.
    pub fn status(&self, i: usize) -> (r: Status)
        requires
            self.inv(),
        ensures
            r == self@.status(i as int),
    {
        if let Some(running) = self.running {
            if running == i {
                return Status::Running;
            }
        }
        if i >= self.reports.len() {
            return Status::NotRun;
        }
        if self.queued[i] {
            return Status::Queued;
        }
        match &self.reports[i] {
            Some(r) => if r.passed {
                Status::Passed
            } else {
                Status::Failed
            },
            None => Status::NotRun,
        }
    }

    /// `not run`, `queued`, `running`, `passed` or `failed`.
    pub fn status_name(&self, i: usize) -> (r: &'static str)
        requires
            self.inv(),
        ensures
            r@ == self@.status(i as int).text(),
    {
        self.status(i).name()
    }

    /// How test `i` went, if it ran.
    pub fn report(&self, i: usize) -> (r: Option<&TestReport>)
        ensures
            match r {
                Some(report) => i < self@.reports.len() && self@.reports[i as int] == Some(*report),
                None => i < self@.reports.len() ==> self@.reports[i as int] is None,
            },
    {
        if i >= self.reports.len() {
            return None;
        }
        match &self.reports[i] {
            Some(r) => Some(r),
            None => None,
        }
    }

    /// Whether tests are running.
    pub fn is_running(&self) -> (r: bool)
        ensures
            r == self@.busy,
    {
        self.busy
    }

    /// Whether test `i` is shown in detail.
    pub fn is_expanded(&self, i: usize) -> (r: bool)
        requires
            self.inv(),
        ensures
            r == self@.expanded.contains(i as int),
    {
        i < self.expanded.len() && self.expanded[i]
    }

    /// Shows test `i` in detail, or no longer.
    pub fn toggle(&mut self, i: usize)
        requires
            old(self).inv(),
            i < old(self)@.reports.len(),
        ensures
            final(self).inv(),
            final(self)@ == (ChecklistView {
                expanded: if old(self)@.expanded.contains(i as int) {
                    old(self)@.expanded.remove(i as int)
                } else {
                    old(self)@.expanded.insert(i as int)
                },
                ..old(self)@
            }),
    {
        let open = self.expanded[i];
        self.expanded.set(i, !open);
        assert(self@.expanded =~= if old(self)@.expanded.contains(i as int) {
            old(self)@.expanded.remove(i as int)
        } else {
            old(self)@.expanded.insert(i as int)
        });
    }

    /// How many passed, how many failed, and how many there are.
    pub fn counts(&self) -> (r: (usize, usize, usize))
        ensures
            r.0 == count(self@.reports, true),
            r.1 == count(self@.reports, false),
            r.2 == self@.reports.len(),
            r.0 + r.1 <= r.2,
    {
        let mut passed: usize = 0;
        let mut failed: usize = 0;
        let mut i: usize = 0;
        assert(self.reports@.take(0) =~= Seq::<Option<TestReport>>::empty());
        while i < self.reports.len()
            invariant
                i <= self.reports.len(),
                passed == count(self.reports@.take(i as int), true),
                failed == count(self.reports@.take(i as int), false),
                passed + failed <= i,
            decreases self.reports.len() - i,
        {
            assert(self.reports@.take(i + 1).drop_last() =~= self.reports@.take(i as int));
            if let Some(r) = &self.reports[i] {
                if r.passed {
                    passed += 1;
                } else {
                    failed += 1;
                }
            }
            i += 1;
        }
        assert(self.reports@.take(i as int) =~= self.reports@);
        (passed, failed, self.reports.len())
    }

    /// The tests that failed.
    pub fn failed(&self) -> (r: Vec<usize>)
        requires
            self.inv(),
        ensures
            forall|i: usize| #[trigger]
                r@.contains(i) <==> i < self@.reports.len() && self@.status(i as int)
                    == Status::Failed,
            forall|a: int, b: int| 0 <= a < b < r@.len() ==> r@[a] < r@[b],
    {
        let mut out: Vec<usize> = Vec::new();
        let mut i: usize = 0;
        while i < self.reports.len()
            invariant
                self.inv(),
                i <= self.reports.len(),
                forall|k: usize| #[trigger]
                    out@.contains(k) <==> k < i && self@.status(k as int) == Status::Failed,
                forall|a: int, b: int| 0 <= a < b < out@.len() ==> out@[a] < out@[b],
                forall|a: int| 0 <= a < out@.len() ==> out@[a] < i,
            decreases self.reports.len() - i,
        {
            let status = self.status(i);
            if status == Status::Failed {
                let ghost was = out@;
                out.push(i);
                assert forall|k: usize| #[trigger] out@.contains(k) <==> k < i + 1 && self@.status(
                    k as int,
                ) == Status::Failed by {
                    if k == i {
                        assert(out@[out@.len() - 1] == i);
                    } else if was.contains(k) {
                        assert(out@[was.index_of(k)] == k);
                    } else if out@.contains(k) {
                        assert(was[out@.index_of(k)] == k);
                    }
                }
            }
            i += 1;
        }
        out
    }

    /// Marks `tests` as waiting to run. Returns whether to run them: not while others are
    /// running, and not if there are none.
    pub fn run(&mut self, tests: &Vec<usize>) -> (r: bool)
        requires
            old(self).inv(),
            forall|i: int| 0 <= i < tests@.len() ==> #[trigger] tests@[i] < old(self)@.reports.len(),
        ensures
            final(self).inv(),
            r == (!old(self)@.busy && tests@.len() > 0),
            final(self)@ == (if r {
                ChecklistView { busy: true, ..old(self)@.enqueued(tests@) }
            } else {
                old(self)@
            }),
    {
        if self.busy || tests.len() == 0 {
            return false;
        }
        let mut k: usize = 0;
        assert(tests@.take(0) =~= Seq::<usize>::empty());
        while k < tests.len()
            invariant
                k <= tests.len(),
                self.inv(),
                self.reports@.len() == old(self)@.reports.len(),
                forall|i: int|
                    0 <= i < tests@.len() ==> #[trigger] tests@[i] < old(self)@.reports.len(),
                self@ == old(self)@.enqueued(tests@.take(k as int)),
            decreases tests.len() - k,
        {
            let ghost before = self@;
            let i: usize = tests[k];
            assert(tests@[k as int] < old(self)@.reports.len());
            self.reports.set(i, None);
            self.queued.set(i, true);
            k += 1;
            proof {
                assert(tests@.take(k as int).drop_last() =~= tests@.take(k - 1));
                assert(self@.queued =~= before.queued.insert(i as int));
                assert(self@ =~= ChecklistView {
                    reports: before.reports.update(i as int, None),
                    queued: before.queued.insert(i as int),
                    ..before
                });
            }
        }
        assert(tests@.take(k as int) =~= tests@);
        self.busy = true;
        assert(self@ =~= ChecklistView { busy: true, ..old(self)@.enqueued(tests@) });
        true
    }

    /// Takes note of what came of running the tests.
    pub fn on_event(&mut self, event: RunnerEvent)
        requires
            old(self).inv(),
            match event {
                RunnerEvent::Started(i) => i < old(self)@.reports.len(),
                RunnerEvent::Finished(i, _) => i < old(self)@.reports.len(),
                RunnerEvent::Done => true,
            },
        ensures
            final(self).inv(),
            final(self)@ == old(self)@.after(event),
    {
        let ghost next = self@.after(event);
        match event {
            RunnerEvent::Started(i) => {
                self.queued.set(i, false);
                self.running = Some(i);
                assert(self@.queued =~= next.queued);
            },
            RunnerEvent::Finished(i, report) => {
                if !report.passed {
                    self.expanded.set(i, true);
                    assert(self@.expanded =~= next.expanded);
                }
                self.reports.set(i, Some(report));
                self.running = None;
            },
            RunnerEvent::Done => {
                let mut k: usize = 0;
                let n: usize = self.queued.len();
                while k < n
                    invariant
                        k <= n,
                        n == self.queued@.len(),
                        self.queued@.len() == old(self).queued@.len(),
                        self.reports@ == old(self).reports@,
                        self.expanded@ == old(self).expanded@,
                        old(self).inv(),
                        forall|j: int| 0 <= j < k ==> !(#[trigger] self.queued@[j]),
                    decreases n - k,
                {
                    self.queued.set(k, false);
                    k += 1;
                }
                self.running = None;
                self.busy = false;
                assert(self@.queued =~= Set::<int>::empty());
            },
        }
        assert(self@ =~= next);
    }
}

/// What the tab with the checklist is called.
pub fn tab_label(passed: usize, failed: usize, total: usize, running: bool) -> (r: String)
    ensures
        r@ == (if running {
            "Tests (running… "@ + crate::text::decimal_text(passed as nat) + "/"@
                + crate::text::decimal_text(total as nat) + ")"@
        } else if failed > 0 {
            "Tests ("@ + crate::text::decimal_text(failed as nat) + " failed)"@
        } else {
            "Tests ("@ + crate::text::decimal_text(passed as nat) + "/"@
                + crate::text::decimal_text(total as nat) + ")"@
        }),
{
    if !running && failed > 0 {
        let mut out = "Tests (".to_owned();
        out.append(decimal(failed as u64).as_str());
        out.append(" failed)");
        return out;
    }
    let mut out = if running {
        "Tests (running… ".to_owned()
    } else {
        "Tests (".to_owned()
    };
    out.append(decimal(passed as u64).as_str());
    out.append("/");
    out.append(decimal(total as u64).as_str());
    out.append(")");
    out
}

/// Once a run is over nothing is waiting or running, whatever happened during it.
pub proof fn law_a_finished_run_leaves_nothing_waiting(list: ChecklistView, i: int)
    ensures
        list.after(RunnerEvent::Done).status(i) != Status::Queued,
        list.after(RunnerEvent::Done).status(i) != Status::Running,
        !list.after(RunnerEvent::Done).busy,
{
}

/// A test that was asked for is waiting until it starts, running until it finishes, and then
/// passed or failed as its report says.
pub proof fn law_a_test_is_seen_through(list: ChecklistView, i: usize, report: TestReport)
    requires
        i < list.reports.len(),
        list.running is None,
    ensures
        ({
            let asked = list.enqueued(seq![i]);
            let started = asked.after(RunnerEvent::Started(i));
            let finished = started.after(RunnerEvent::Finished(i, report));
            &&& asked.status(i as int) == Status::Queued
            &&& started.status(i as int) == Status::Running
            &&& finished.status(i as int) == (if report.passed {
                Status::Passed
            } else {
                Status::Failed
            })
        }),
{
    reveal_with_fuel(ChecklistView::enqueued, 2);
    assert(seq![i].drop_last() =~= Seq::<usize>::empty());
    assert(seq![i].last() == i);
}

} // verus!
