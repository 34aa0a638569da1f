use raytracer::trace::budget_exhausted;
use raytracer::trace::trace_outcome;
use raytracer::trace::trace_step;
use raytracer::trace::BounceEvent;
use raytracer::trace::TraceOutcome;
use raytracer::trace::TraceStep;

#[test]
fn budget_terminal_test() {
    assert!(budget_exhausted(0));
    assert!(budget_exhausted(-1));
    assert!(!budget_exhausted(1));
    assert!(!budget_exhausted(80));
}

#[test]
fn exhausted_budget_is_black() {
    // Depth zero emits black no matter what the scene would have reported.
    assert_eq!(trace_step(0, BounceEvent::Miss), TraceStep::EmitBlack);
    assert_eq!(trace_step(0, BounceEvent::Absorbed), TraceStep::EmitBlack);
    assert_eq!(trace_step(0, BounceEvent::Scattered), TraceStep::EmitBlack);
    assert_eq!(trace_step(-3, BounceEvent::Scattered), TraceStep::EmitBlack);
}

#[test]
fn live_budget_follows_the_event() {
    assert_eq!(trace_step(5, BounceEvent::Miss), TraceStep::EmitBackground);
    assert_eq!(trace_step(5, BounceEvent::Absorbed), TraceStep::EmitBlack);
    assert_eq!(trace_step(5, BounceEvent::Scattered), TraceStep::Bounce);
    assert_eq!(trace_step(1, BounceEvent::Scattered), TraceStep::Bounce);
}

#[test]
fn outcome_zero_depth() {
    assert_eq!(trace_outcome(0, &vec![]), (TraceOutcome::Black, 0));
    assert_eq!(
        trace_outcome(0, &vec![BounceEvent::Miss, BounceEvent::Miss]),
        (TraceOutcome::Black, 0)
    );
}

#[test]
fn outcome_escapes_to_background() {
    let events = vec![
        BounceEvent::Scattered,
        BounceEvent::Scattered,
        BounceEvent::Miss,
    ];
    assert_eq!(trace_outcome(3, &events), (TraceOutcome::Background, 2));
    assert_eq!(trace_outcome(10, &events), (TraceOutcome::Background, 2));
}

#[test]
fn outcome_absorbed() {
    let events = vec![
        BounceEvent::Scattered,
        BounceEvent::Absorbed,
        BounceEvent::Miss,
    ];
    assert_eq!(trace_outcome(3, &events), (TraceOutcome::Black, 1));
}

#[test]
fn outcome_budget_runs_out_mid_path() {
    // Two bounces use up a budget of two; the miss beyond it is never seen.
    let events = vec![
        BounceEvent::Scattered,
        BounceEvent::Scattered,
        BounceEvent::Miss,
    ];
    assert_eq!(trace_outcome(2, &events), (TraceOutcome::Black, 2));
}

#[test]
fn bounces_never_exceed_budget() {
    let events = vec![BounceEvent::Scattered; 50];
    for depth in 0..10 {
        let (outcome, bounces) = trace_outcome(depth, &events);
        assert_eq!(outcome, TraceOutcome::Black);
        assert!(bounces as i64 <= depth);
    }
}
