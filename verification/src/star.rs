//! The star benchmark: the server's start handler invokes the client's
//! return handler once per step, waiting for each to complete, and then
//! invokes the client's final handler, which ends the run.
use vstd::prelude::*;
use crate::plan::{PlanStep, RepeatPlan, repeat_step_at};

verus! {

/// Id of the server's start handler.
pub const STAR_START_CAP: u64 = 100;

/// Position of the client's return handler in the continuation.
pub const RETURN_SLOT: usize = 0;

/// Position of the client's final handler in the continuation.
pub const STAR_FINAL_SLOT: usize = 1;

/// The continuation the client sends with its request to the start handler:
/// its return handler, then its final handler.
pub fn star_continuation(return_cap: u64, final_cap: u64) -> (r: Vec<u64>)
    ensures
        r@ == seq![return_cap, final_cap],
        r@[RETURN_SLOT as int] == return_cap,
        r@[STAR_FINAL_SLOT as int] == final_cap,
{
    let mut r: Vec<u64> = Vec::new();
    r.push(return_cap);
    r.push(final_cap);
    assert(r@ =~= seq![return_cap, final_cap]);
    r
}

/// The continuation slot the start handler of a run of `steps` steps
/// invokes at position `pos`, or `None` once the run is over.
pub open spec fn star_slot_at(steps: int, pos: int) -> Option<usize> {
    match repeat_step_at(steps, pos) {
        PlanStep::Repeat => Some(RETURN_SLOT),
        PlanStep::Last => Some(STAR_FINAL_SLOT),
        PlanStep::Done => None,
    }
}

/// The progress of the start handler through one run.
pub struct StarRun {
    plan: RepeatPlan,
}

impl StarRun {
    pub closed spec fn wf(&self) -> bool {
        self.plan.wf()
    }

    /// The number of steps of the run.
    pub closed spec fn steps(&self) -> nat {
        self.plan.spec_count()
    }

    /// The number of invocations made so far.
    pub closed spec fn position(&self) -> nat {
        self.plan.position()
    }

    /// A run of `steps` steps that has made no invocation yet.
    pub fn new(steps: u128) -> (r: Self)
        ensures
            r.wf(),
            r.steps() == steps,
            r.position() == 0,
    {
        StarRun { plan: RepeatPlan::new(steps) }
    }

    /// The continuation slot to invoke next, once the previous invocation
    /// has completed: the return handler `steps` times, then the final
    /// handler once, then nothing.
    pub fn next_invocation(&mut self) -> (r: Option<usize>)
        requires
            old(self).wf(),
        ensures
            final(self).wf(),
            final(self).steps() == old(self).steps(),
            r == star_slot_at(old(self).steps() as int, old(self).position() as int),
            final(self).position() == if old(self).position() <= old(self).steps() {
                old(self).position() + 1
            } else {
                old(self).position()
            },
    {
        match self.plan.next_step() {
            PlanStep::Repeat => Some(RETURN_SLOT),
            PlanStep::Last => Some(STAR_FINAL_SLOT),
            PlanStep::Done => None,
        }
    }
}

/// A run of `steps` steps invokes the return handler at exactly its first
/// `steps` positions and the final handler exactly once, at position
/// `steps`; after that it invokes nothing.
pub proof fn lemma_star_run_shape(steps: int, pos: int)
    requires
        steps >= 0,
        pos >= 0,
    ensures
        (star_slot_at(steps, pos) == Some(RETURN_SLOT)) <==> pos < steps,
        (star_slot_at(steps, pos) == Some(STAR_FINAL_SLOT)) <==> pos == steps,
        (star_slot_at(steps, pos) is None) <==> pos > steps,
{
}

} // verus!
