use tcap_bench::plan::{PlanStep, RepeatPlan};
use tcap_bench::star::{star_continuation, StarRun, RETURN_SLOT, STAR_FINAL_SLOT};

#[test]
fn repeat_plan_repeats_then_ends() {
    let mut p = RepeatPlan::new(3);
    assert_eq!(p.count(), 3);
    assert!(!p.is_done());
    assert_eq!(p.next_step(), PlanStep::Repeat);
    assert_eq!(p.next_step(), PlanStep::Repeat);
    assert_eq!(p.next_step(), PlanStep::Repeat);
    assert!(!p.is_done());
    assert_eq!(p.next_step(), PlanStep::Last);
    assert!(p.is_done());
    assert_eq!(p.next_step(), PlanStep::Done);
    assert_eq!(p.next_step(), PlanStep::Done);
}

#[test]
fn empty_repeat_plan_takes_only_the_last_step() {
    let mut p = RepeatPlan::new(0);
    assert_eq!(p.next_step(), PlanStep::Last);
    assert_eq!(p.next_step(), PlanStep::Done);
}

#[test]
fn star_run_invokes_return_handler_then_final_handler() {
    let mut r = StarRun::new(2);
    assert_eq!(r.next_invocation(), Some(RETURN_SLOT));
    assert_eq!(r.next_invocation(), Some(RETURN_SLOT));
    assert_eq!(r.next_invocation(), Some(STAR_FINAL_SLOT));
    assert_eq!(r.next_invocation(), None);
    assert_eq!(r.next_invocation(), None);
}

#[test]
fn star_run_counts_return_invocations() {
    let mut r = StarRun::new(1000);
    let mut returns = 0;
    let mut finals = 0;
    while let Some(slot) = r.next_invocation() {
        if slot == RETURN_SLOT {
            returns += 1;
        } else {
            assert_eq!(finals, 0);
            finals += 1;
        }
    }
    assert_eq!((returns, finals), (1000, 1));
}

#[test]
fn star_continuation_order() {
    assert_eq!(star_continuation(11, 22), vec![11, 22]);
}
