//! What the verdict on a test rests on.

use vstd::prelude::*;

use crate::probe::{CheckView, ProbeView};

verus! {

/// A test with nothing checked has not passed. One more check passes it just where that check is
/// met and every one before it was, and leaves what was seen as it was.
pub proof fn law_every_check_counts(
    p: ProbeView,
    label: Seq<char>,
    met: bool,
    detail: Seq<char>,
)
    ensures
        p.lines.len() == 0 ==> !p.all_passed(),
        ({
            let after = p.checked(label, met, detail);
            &&& after.lines.len() == p.lines.len() + 1
            &&& after.lines.last() == (CheckView { label, passed: met, detail })
            &&& forall|i: int| 0 <= i < p.lines.len() ==> #[trigger] after.lines[i] == p.lines[i]
            &&& after.all_passed() <==> met && (p.lines.len() == 0 || p.all_passed())
            &&& after.alerts == p.alerts
            &&& after.notes == p.notes
            &&& after.fuse == p.fuse
            &&& after.ticks == p.ticks
            &&& after.health == p.health
        }),
{
    let after = p.checked(label, met, detail);
    if after.all_passed() {
        assert(after.lines[p.lines.len() as int].passed);
        assert forall|i: int| 0 <= i < p.lines.len() implies (#[trigger] p.lines[i]).passed by {
            assert(after.lines[i].passed);
        }
    }
    if met && (p.lines.len() == 0 || p.all_passed()) {
        assert forall|i: int| 0 <= i < after.lines.len() implies (
        #[trigger] after.lines[i]).passed by {
            if i < p.lines.len() {
                assert(p.lines[i].passed);
            }
        }
    }
}

/// A check that was not met is never made up for: whatever is checked after it, the test fails.
pub proof fn law_a_failed_check_fails_the_test(p: ProbeView, more: Seq<CheckView>, i: int)
    requires
        0 <= i < p.lines.len(),
        !p.lines[i].passed,
    ensures
        !all_checked(p, more).all_passed(),
{
    lemma_checked_in_order(p, more);
    assert(!all_checked(p, more).lines[i].passed);
}

/// With several more expectations checked, one after the other.
pub open spec fn all_checked(p: ProbeView, more: Seq<CheckView>) -> ProbeView
    decreases more.len(),
{
    if more.len() == 0 {
        p
    } else {
        all_checked(p, more.drop_last()).checked(
            more.last().label,
            more.last().passed,
            more.last().detail,
        )
    }
}

proof fn lemma_checked_in_order(p: ProbeView, more: Seq<CheckView>)
    ensures
        all_checked(p, more).lines == p.lines + more,
    decreases more.len(),
{
    if more.len() == 0 {
        assert(p.lines + more =~= p.lines);
    } else {
        lemma_checked_in_order(p, more.drop_last());
        assert(all_checked(p, more).lines =~= p.lines + more);
    }
}

/// A world stayed within its limits just where no tick sent more packets than may be sent, and no
/// more wait than may wait.
pub proof fn law_what_stays_within_limits(p: ProbeView)
    ensures
        p.within_limits() <==> p.health.peak_transmissions
            <= p.health.limits.max_transmissions_per_tick && p.health.pending
            <= p.health.limits.max_pending,
{
}

/// A fuse report names a check as a cause just where one of the alerts on it is from that check;
/// where the fuse held there is no cause.
pub proof fn law_causes_are_on_the_report(p: ProbeView, check: Seq<char>, i: int)
    ensures
        p.fuse is None ==> !p.names_cause(check),
        p.fuse matches Some(f) ==> 0 <= i < f.recent_alerts@.len() ==> p.names_cause(
            f.recent_alerts@[i].check@,
        ),
        p.fuse matches Some(f) ==> (forall|j: int|
            0 <= j < f.recent_alerts@.len() ==> (#[trigger] f.recent_alerts@[j]).check@ != check)
            ==> !p.names_cause(check),
{
}

} // verus!
