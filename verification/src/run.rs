//! Running several ticks in a row: how long to go on, and when to stop.

use vstd::prelude::*;

use crate::world::TickOutcome;

verus! {

/// A number of ticks being run one after the other.
#[derive(Debug, Clone, Copy, PartialEq, Eq, Structural)]
pub struct Run {
    /// Ticks asked for.
    pub steps: u64,
    /// Ticks run so far.
    pub ran: u64,
    /// Whether the fuse tripped.
    pub tripped: bool,
    /// Whether a tripped fuse ends the run.
    pub stop_at_fuse: bool,
}

impl Run {
    /// Whether another tick is due.
    pub open spec fn due(self) -> bool {
        self.ran < self.steps && !(self.tripped && self.stop_at_fuse)
    }

    /// The run after one more tick.
    pub open spec fn after(self, outcome: TickOutcome) -> Run {
        Run {
            ran: (self.ran + 1) as u64,
            tripped: self.tripped || outcome == TickOutcome::FuseTripped,
            ..self
        }
    }

    /// The run after several more ticks, as long as they are due.
    pub open spec fn after_all(self, outcomes: Seq<TickOutcome>) -> Run
        decreases outcomes.len(),
    {
        if outcomes.len() == 0 || !self.due() {
            self
        } else {
            self.after(outcomes[0]).after_all(outcomes.drop_first())
        }
    }

    /// A run of `steps` ticks.
    pub fn new(steps: u64, stop_at_fuse: bool) -> (r: Self)
        ensures
            r == (Run { steps, ran: 0, tripped: false, stop_at_fuse }),
    {
        Run { steps, ran: 0, tripped: false, stop_at_fuse }
    }

    /// Whether another tick is due.
    pub fn is_due(&self) -> (r: bool)
        ensures
            r == self.due(),
    {
        self.ran < self.steps && !(self.tripped && self.stop_at_fuse)
    }

    /// Takes note of how a tick ended.
    pub fn ticked(&mut self, outcome: TickOutcome)
        requires
            old(self).due(),
        ensures
            *final(self) == old(self).after(outcome),
    {
        self.ran += 1;
        if outcome == TickOutcome::FuseTripped {
            self.tripped = true;
        }
    }
}

/// Why a run is stopped from outside, if it is.
pub fn stop_reason(cancelled: bool, out_of_time: bool) -> (r: Option<&'static str>)
    ensures
        match r {
            Some(why) => if cancelled {
                why@ == "cancelled"@
            } else {
                out_of_time && why@ == "ran out of time"@
            },
            None => !cancelled && !out_of_time,
        },
{
    if cancelled {
        Some("cancelled")
    } else if out_of_time {
        Some("ran out of time")
    } else {
        None
    }
}

/// A run never takes more ticks than asked for, and one that stops at the fuse takes none after a
/// tick that tripped it.
pub proof fn law_runs_stop(run: Run, outcomes: Seq<TickOutcome>)
    requires
        run.ran <= run.steps,
    ensures
        run.after_all(outcomes).ran <= run.steps,
        run.after_all(outcomes).ran - run.ran <= outcomes.len(),
        run.stop_at_fuse && run.tripped ==> run.after_all(outcomes) == run,
        run.stop_at_fuse && !run.tripped ==> forall|i: int|
            0 <= i < run.after_all(outcomes).ran - run.ran - 1 ==> (#[trigger] outcomes[i])
                == TickOutcome::Completed,
    decreases outcomes.len(),
{
    if outcomes.len() > 0 && run.due() {
        let rest = outcomes.drop_first();
        let next = run.after(outcomes[0]);
        law_runs_stop(next, rest);
        if run.stop_at_fuse && !run.tripped {
            assert forall|i: int| 0 <= i < run.after_all(outcomes).ran - run.ran - 1 implies (
            #[trigger] outcomes[i]) == TickOutcome::Completed by {
                if i > 0 {
                    assert(rest[i - 1] == outcomes[i]);
                }
            }
        }
    }
}

} // verus!
