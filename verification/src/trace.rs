//! Depth-bounded accounting of the recursive color computation.
//!
//! Following a camera ray is a loop: cast the ray, and either the scene
//! reports no hit (the background shows through), or the struck material
//! absorbs the ray, or it scatters the ray and the loop continues with a
//! depth budget one smaller. The numeric work — intersection and scattering —
//! runs on `f64` outside this crate; what is decided here, and proved, is the
//! control: which of the three terminal contributions a ray ends in, that an
//! exhausted budget always ends in black, and that the chain of attenuation
//! factors is never longer than the budget.

use vstd::prelude::*;

verus! {

/// What casting the current ray reported back.
#[derive(Clone, Copy, PartialEq, Eq, Structural, Debug)]
pub enum BounceEvent {
    /// The ray hit nothing within the search interval.
    Miss,
    /// The ray hit a surface whose material absorbed it.
    Absorbed,
    /// The ray hit a surface whose material scattered it into a new ray.
    Scattered,
}

/// What the color computation does with the current ray.
#[derive(Clone, Copy, PartialEq, Eq, Structural, Debug)]
pub enum TraceStep {
    /// Stop: this ray contributes black (zero radiance).
    EmitBlack,
    /// Stop: this ray contributes the background gradient.
    EmitBackground,
    /// Multiply in the material's attenuation and follow the scattered ray.
    Bounce,
}

/// How a fully followed ray ends.
#[derive(Clone, Copy, PartialEq, Eq, Structural, Debug)]
pub enum TraceOutcome {
    /// The ray was absorbed, or the depth budget ran out.
    Black,
    /// The ray escaped to the background.
    Background,
}

/// The recursion's terminal test: whether the depth budget is used up, in
/// which case the current ray is not cast at all and contributes black.
pub fn budget_exhausted(depth_left: i64) -> (r: bool)
    ensures
        r <==> depth_left <= 0,
{
    depth_left <= 0
}

/// One decision of the recursive color computation: an exhausted depth budget
/// emits black whatever the scene reported; otherwise a miss shows the
/// background, an absorbed ray is black, and a scattered ray bounces on.
pub fn trace_step(depth_left: i64, event: BounceEvent) -> (s: TraceStep)
    ensures
        depth_left <= 0 ==> s == TraceStep::EmitBlack,
        depth_left > 0 && event == BounceEvent::Miss ==> s == TraceStep::EmitBackground,
        depth_left > 0 && event == BounceEvent::Absorbed ==> s == TraceStep::EmitBlack,
        depth_left > 0 && event == BounceEvent::Scattered ==> s == TraceStep::Bounce,
{
    if depth_left <= 0 {
        TraceStep::EmitBlack
    } else {
        match event {
            BounceEvent::Miss => TraceStep::EmitBackground,
            BounceEvent::Absorbed => TraceStep::EmitBlack,
            BounceEvent::Scattered => TraceStep::Bounce,
        }
    }
}

/// How a ray ends when the casts along its path report `events`, under a
/// depth budget of `depth`.
pub open spec fn outcome_spec(depth: int, events: Seq<BounceEvent>) -> TraceOutcome
    decreases events.len(),
{
    if depth <= 0 || events.len() == 0 {
        TraceOutcome::Black
    } else if events[0] == BounceEvent::Miss {
        TraceOutcome::Background
    } else if events[0] == BounceEvent::Absorbed {
        TraceOutcome::Black
    } else {
        outcome_spec(depth - 1, events.drop_first())
    }
}

/// How many attenuation factors are multiplied into the ray's color: one per
/// scattering bounce actually followed.
pub open spec fn bounces_spec(depth: int, events: Seq<BounceEvent>) -> nat
    decreases events.len(),
{
    if depth <= 0 || events.len() == 0 {
        0
    } else if events[0] == BounceEvent::Scattered {
        1 + bounces_spec(depth - 1, events.drop_first())
    } else {
        0
    }
}

/// Follows one ray's event path to its end: returns how the ray ends and how
/// many scattering bounces were taken, iteratively — the attenuation chain is
/// associative, so the recursive multiply can be folded this way.
pub fn trace_outcome(depth: i64, events: &Vec<BounceEvent>) -> (r: (TraceOutcome, usize))
    requires
        depth <= events@.len(),
    ensures
        r.0 == outcome_spec(depth as int, events@),
        r.1 == bounces_spec(depth as int, events@),
{
    let n = events.len();
    let mut idx: usize = 0;
    let mut depth_left: i64 = depth;
    proof {
        assert(events@.skip(0) =~= events@);
    }
    while depth_left > 0
        invariant
            n == events@.len(),
            0 <= idx,
            idx as int <= events@.len(),
            depth_left == depth - idx,
            depth <= events@.len(),
            outcome_spec(depth as int, events@) == outcome_spec(
                depth_left as int,
                events@.skip(idx as int),
            ),
            bounces_spec(depth as int, events@) == idx + bounces_spec(
                depth_left as int,
                events@.skip(idx as int),
            ),
        decreases depth_left,
    {
        let ev = events[idx];
        let step = trace_step(depth_left, ev);
        proof {
            assert(events@.skip(idx as int)[0] == events@[idx as int]);
        }
        match step {
            TraceStep::EmitBlack => {
                return (TraceOutcome::Black, idx);
            },
            TraceStep::EmitBackground => {
                return (TraceOutcome::Background, idx);
            },
            TraceStep::Bounce => {
                proof {
                    assert(events@.skip(idx as int).drop_first() =~= events@.skip(idx as int + 1));
                    assert(idx < n);
                }
                idx += 1;
                depth_left -= 1;
            },
        }
    }
    (TraceOutcome::Black, idx)
}

/// Law: a ray given no depth budget at all contributes black, whatever the
/// scene would have reported and with no attenuation applied.
pub proof fn lemma_depth_zero_black(events: Seq<BounceEvent>)
    ensures
        outcome_spec(0, events) == TraceOutcome::Black,
        bounces_spec(0, events) == 0,
{
}

/// Law: the recursion terminates within the budget — a ray is never followed
/// through more scattering bounces than its depth budget.
pub proof fn lemma_bounces_bounded(depth: int, events: Seq<BounceEvent>)
    ensures
        bounces_spec(depth, events) <= (if depth >= 0 {
            depth
        } else {
            0
        }),
    decreases events.len(),
{
    if depth > 0 && events.len() > 0 && events[0] == BounceEvent::Scattered {
        lemma_bounces_bounded(depth - 1, events.drop_first());
    }
}

} // verus!
