//! The steady-rate scheduler: how many submissions are due now.
//!
//! The clock and the rate say how many submissions would ideally have gone out since the
//! run started. The pacer hands out the shortfall, and drops what a stall left behind.

use vstd::prelude::*;

verus! {

/// Hands out the shortfall against a cumulative target, at most one second's worth at a
/// time, so that a stall never produces a runaway catch-up burst.
#[derive(Clone, Debug)]
pub struct Pacer {
    burst_cap: u64,
    issued: u64,
}

/// A pacer's contents.
pub struct Pace {
    /// The most submissions one call may return.
    pub burst_cap: u64,
    /// Submissions that were sent or dropped.
    pub issued: u64,
}

impl Pace {
    /// What is due against a target.
    pub open spec fn due(self, target: u64) -> u64 {
        if target <= self.issued {
            0
        } else if target - self.issued > self.burst_cap {
            self.burst_cap
        } else {
            (target - self.issued) as u64
        }
    }

    /// The pace after what is due was taken: what is not sent now is dropped.
    pub open spec fn taken(self, target: u64) -> Pace {
        Pace {
            issued: if target > self.issued {
                target
            } else {
                self.issued
            },
            ..self
        }
    }
}

impl Pacer {
    /// The pacer's contents.
    pub closed spec fn view(&self) -> Pace {
        Pace { burst_cap: self.burst_cap, issued: self.issued }
    }

    /// A pacer for so many submissions per second, rounded up. It hands out at least one
    /// at a time.
    pub fn new(per_second: u64) -> (p: Self)
        ensures
            p@ == (Pace {
                burst_cap: if per_second < 1 {
                    1
                } else {
                    per_second
                },
                issued: 0,
            }),
    {
        Pacer {
            burst_cap: if per_second < 1 {
                1
            } else {
                per_second
            },
            issued: 0,
        }
    }

    /// How many submissions are due, now that `target` of them should have gone out since
    /// the run started. A backlog beyond one second's worth is dropped.
    pub fn take_due(&mut self, target: u64) -> (due: u64)
        ensures
            due == old(self)@.due(target),
            final(self)@ == old(self)@.taken(target),
    {
        let shortfall: u64 = target.saturating_sub(self.issued);
        if target > self.issued {
            self.issued = target;
        }
        if shortfall > self.burst_cap {
            self.burst_cap
        } else {
            shortfall
        }
    }
}

/// The pace after a run of readings.
pub open spec fn after_readings(p: Pace, targets: Seq<u64>) -> Pace
    decreases targets.len(),
{
    if targets.len() == 0 {
        p
    } else {
        after_readings(p, targets.drop_last()).taken(targets.last())
    }
}

/// The submissions handed out over a run of readings.
pub open spec fn handed_out(p: Pace, targets: Seq<u64>) -> nat
    decreases targets.len(),
{
    if targets.len() == 0 {
        0
    } else {
        handed_out(p, targets.drop_last()) + after_readings(p, targets.drop_last()).due(
            targets.last(),
        ) as nat
    }
}

/// Nothing is issued twice: over any readings, in any order, no more is handed out than
/// the highest target called for, and one reading never hands out more than one second's
/// worth.
pub proof fn law_the_pacer_never_overshoots(p: Pace, targets: Seq<u64>, target: u64)
    requires
        p.issued == 0,
    ensures
        handed_out(p, targets) <= after_readings(p, targets).issued,
        after_readings(p, targets).due(target) <= p.burst_cap,
        after_readings(p, targets).issued == 0 || targets.contains(
            after_readings(p, targets).issued,
        ),
        after_readings(p, targets).burst_cap == p.burst_cap,
    decreases targets.len(),
{
    if targets.len() > 0 {
        let rest = targets.drop_last();
        law_the_pacer_never_overshoots(p, rest, targets.last());
        let before = after_readings(p, rest).issued;
        if targets.last() > before {
            assert(targets[targets.len() - 1] == targets.last());
        } else if before != 0 {
            let i = rest.index_of(before);
            assert(targets[i] == before);
        }
    }
}

/// Under regular readings nothing is starved: as long as no shortfall exceeds one
/// second's worth, everything the target called for is handed out.
pub proof fn law_regular_readings_lose_nothing(p: Pace, targets: Seq<u64>)
    requires
        p.issued == 0,
        forall|i: int|
            0 <= i < targets.len() ==> (#[trigger] targets[i]) <= after_readings(
                p,
                targets.take(i),
            ).issued + p.burst_cap,
    ensures
        handed_out(p, targets) == after_readings(p, targets).issued,
    decreases targets.len(),
{
    if targets.len() > 0 {
        let rest = targets.drop_last();
        assert(targets.take(targets.len() - 1) =~= rest);
        assert(targets[targets.len() - 1] <= after_readings(p, rest).issued + p.burst_cap);
        assert forall|i: int| 0 <= i < rest.len() implies (#[trigger] rest[i]) <= after_readings(
            p,
            rest.take(i),
        ).issued + p.burst_cap by {
            assert(rest[i] == targets[i]);
            assert(rest.take(i) =~= targets.take(i));
        }
        law_regular_readings_lose_nothing(p, rest);
        law_the_pacer_never_overshoots(p, rest, 0);
    }
}

/// What is due is what the target is ahead of what went out, and at most one second's worth;
/// a target that was reached asks for nothing. The target is settled then, also where some of
/// it was dropped, and is never settled backwards.
pub proof fn law_what_is_due_is_the_shortfall(p: Pace, target: u64)
    ensures
        p.due(target) <= p.burst_cap,
        target <= p.issued ==> p.due(target) == 0 && p.taken(target).issued == p.issued,
        target > p.issued ==> p.taken(target).issued == target,
        p.issued < target <= p.issued + p.burst_cap ==> p.issued + p.due(target) == target,
        target > p.issued + p.burst_cap ==> p.due(target) == p.burst_cap,
        p.taken(target).burst_cap == p.burst_cap,
        p.taken(target).due(target) == 0,
{
}

} // verus!
