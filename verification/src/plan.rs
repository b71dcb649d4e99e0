//! A plan that repeats one step a given number of times, then takes a last
//! step once, and is then done. The star benchmark's start handler, the
//! throughput client and the ping client each follow
//! such a plan; the caller performs the step the plan names and asks for the
//! next one when it has completed.
use vstd::prelude::*;

verus! {

/// A step of a `RepeatPlan`.
#[derive(Clone, Copy, Debug, PartialEq, Eq, Structural)]
pub enum PlanStep {
    /// Perform the repeated step once more.
    Repeat,
    /// Perform the last step.
    Last,
    /// Nothing is left to do.
    Done,
}

/// The step a plan of `count` repetitions names at position `pos` (the
/// number of steps it has named before).
pub open spec fn repeat_step_at(count: int, pos: int) -> PlanStep {
    if pos < count {
        PlanStep::Repeat
    } else if pos == count {
        PlanStep::Last
    } else {
        PlanStep::Done
    }
}

/// `count` repetitions of one step, then a last step.
pub struct RepeatPlan {
    count: u128,
    issued: u128,
    last_issued: bool,
}

impl RepeatPlan {
    /// The counters agree: no more repetitions than planned, and the last
    /// step only after all of them.
    pub closed spec fn wf(&self) -> bool {
        &&& self.issued <= self.count
        &&& self.last_issued ==> self.issued == self.count
    }

    /// The number of repetitions the plan was made with.
    pub closed spec fn spec_count(&self) -> nat {
        self.count as nat
    }

    /// The number of steps the plan has named so far, `Done` not counted.
    pub closed spec fn position(&self) -> nat {
        self.issued as nat + if self.last_issued {
            1nat
        } else {
            0nat
        }
    }

    /// A plan of `count` repetitions that has named no step yet.
    pub fn new(count: u128) -> (p: Self)
        ensures
            p.wf(),
            p.spec_count() == count,
            p.position() == 0,
    {
        RepeatPlan { count, issued: 0, last_issued: false }
    }

    /// The number of repetitions the plan was made with.
    pub fn count(&self) -> (r: u128)
        ensures
            r == self.spec_count(),
    {
        self.count
    }

    /// Names the next step: the step at the plan's position, which then
    /// advances by one, unless the plan is done.
    pub fn next_step(&mut self) -> (s: PlanStep)
        requires
            old(self).wf(),
        ensures
            final(self).wf(),
            final(self).spec_count() == old(self).spec_count(),
            s == repeat_step_at(old(self).spec_count() as int, old(self).position() as int),
            final(self).position() == if old(self).position() <= old(self).spec_count() {
                old(self).position() + 1
            } else {
                old(self).position()
            },
    {
        if self.issued < self.count {
            self.issued = self.issued + 1;
            PlanStep::Repeat
        } else if !self.last_issued {
            self.last_issued = true;
            PlanStep::Last
        } else {
            PlanStep::Done
        }
    }

    /// Whether the plan has named its last step.
    pub fn is_done(&self) -> (r: bool)
        requires
            self.wf(),
        ensures
            r == (self.position() > self.spec_count()),
    {
        self.last_issued
    }
}

/// A plan of `count` repetitions names the repeated step exactly at its
/// first `count` positions, the last step exactly at position `count`, and
/// nothing but `Done` after it.
pub proof fn lemma_repeat_plan_shape(count: int, pos: int)
    requires
        count >= 0,
        pos >= 0,
    ensures
        (repeat_step_at(count, pos) == PlanStep::Repeat) <==> pos < count,
        (repeat_step_at(count, pos) == PlanStep::Last) <==> pos == count,
        (repeat_step_at(count, pos) == PlanStep::Done) <==> pos > count,
{
}

} // verus!
