//! Iterations from configuration to configuration towards a goal.

use vstd::prelude::*;
use crate::number::Real;

verus! {

/// What a step comes to.
pub enum Outcome {
    /// The next configuration.
    Move(Vec<Real>),
    /// There is nowhere to go.
    Rest,
    /// The step could not be computed.
    Fail,
}

/// How an iteration ends.
#[derive(Clone, Copy, PartialEq, Eq, Structural, Debug)]
pub enum Ending {
    /// The goal is reached.
    Reached,
    /// There was nowhere to go.
    Rested,
    /// A step could not be computed.
    Failed,
    /// The steps were used up.
    Exhausted,
}

/// A goal and a way towards it.
pub trait Descent {
    /// What is measured at a configuration.
    type State;

    /// Whether the goal and the way make sense.
    spec fn valid(&self) -> bool;

    /// Whether a configuration has the right size.
    spec fn fits(&self, q: Seq<Real>) -> bool;

    /// Whether `s` is what is measured at `q`.
    spec fn measured(&self, q: Seq<Real>, s: Self::State) -> bool;

    /// Whether the goal counts as reached.
    spec fn reached(&self, s: Self::State) -> bool;

    /// Whether a step from `q`, where `s` is measured, comes to `o`.
    spec fn stepped(&self, q: Seq<Real>, s: Self::State, o: Outcome) -> bool;

    /// Measures at a configuration.
    fn measure(&self, q: &Vec<Real>) -> (s: Self::State)
        requires
            self.valid(),
            self.fits(q@),
        ensures
            self.measured(q@, s),
    ;

    /// Tells whether the goal counts as reached.
    fn test(&self, s: &Self::State) -> (r: bool)
        ensures
            r == self.reached(*s),
    ;

    /// Takes a step.
    fn step(&self, q: &Vec<Real>, s: &Self::State) -> (o: Outcome)
        requires
            self.valid(),
            self.fits(q@),
            self.measured(q@, *s),
        ensures
            self.stepped(q@, *s, o),
            o matches Outcome::Move(r) ==> self.fits(r@),
    ;
}

/// Whether the `i`-th step leads on from where the goal is not reached.
pub open spec fn moves_on<D: Descent>(d: D, trace: Seq<Vec<Real>>, states: Seq<D::State>, i: int) -> bool {
    &&& d.measured(trace[i]@, states[i])
    &&& !d.reached(states[i])
    &&& d.stepped(trace[i]@, states[i], Outcome::Move(trace[i + 1]))
}

/// Whether `n` steps lead from `start` along the trace.
pub open spec fn follows<D: Descent>(
    d: D,
    start: Seq<Real>,
    n: int,
    trace: Seq<Vec<Real>>,
    states: Seq<D::State>,
) -> bool {
    &&& 0 <= n
    &&& trace.len() == n + 1
    &&& trace[0]@ == start
    &&& forall|i: int| 0 <= i <= n ==> d.fits((#[trigger] trace[i])@)
    &&& forall|i: int| 0 <= i < n ==> #[trigger] moves_on(d, trace, states, i)
}

/// Whether the iteration ends as told at the end of a trace of `n` steps, of which `max`
/// are allowed; `states` is all that was measured, and `last` what was measured last, if anything.
pub open spec fn ends<D: Descent>(
    d: D,
    max: int,
    n: int,
    trace: Seq<Vec<Real>>,
    states: Seq<D::State>,
    last: Option<D::State>,
    ending: Ending,
) -> bool {
    match ending {
        Ending::Exhausted => {
            &&& n == max
            &&& states.len() == n
            &&& if n == 0 {
                last is None
            } else {
                last == Some(states[n - 1])
            }
        },
        _ => {
            &&& n < max
            &&& states.len() == n + 1
            &&& last == Some(states[n])
            &&& d.measured(trace[n]@, states[n])
            &&& (ending == Ending::Reached) == d.reached(states[n])
            &&& ending == Ending::Rested ==> d.stepped(trace[n]@, states[n], Outcome::Rest)
            &&& ending == Ending::Failed ==> d.stepped(trace[n]@, states[n], Outcome::Fail)
        },
    }
}

/// Whether an iteration from `start` with at most `max` steps comes to `q` after `n` steps.
pub open spec fn descends<D: Descent>(
    d: D,
    start: Seq<Real>,
    max: int,
    n: int,
    q: Seq<Real>,
    last: Option<D::State>,
    ending: Ending,
) -> bool {
    exists|trace: Seq<Vec<Real>>, states: Seq<D::State>|
        {
            &&& #[trigger] follows(d, start, n, trace, states)
            &&& ends(d, max, n, trace, states, last, ending)
            &&& q == trace[n]@
        }
}

/// Where an iteration comes to.
pub struct Descended<S> {
    pub q: Vec<Real>,
    /// Number of steps that were taken.
    pub steps: usize,
    /// What was measured last, if anything.
    pub last: Option<S>,
    pub ending: Ending,
}

proof fn follows_on<D: Descent>(
    d: D,
    start: Seq<Real>,
    n: int,
    trace: Seq<Vec<Real>>,
    states: Seq<D::State>,
    s: D::State,
    next: Vec<Real>,
)
    requires
        follows(d, start, n, trace, states),
        n >= 0,
        states.len() == n,
        d.measured(trace[n]@, s),
        !d.reached(s),
        d.stepped(trace[n]@, s, Outcome::Move(next)),
        d.fits(next@),
    ensures
        follows(d, start, n + 1, trace.push(next), states.push(s)),
{
    let t = trace.push(next);
    let u = states.push(s);
    assert forall|i: int| 0 <= i <= n + 1 implies d.fits((#[trigger] t[i])@) by {
        if i <= n {
            assert(t[i] == trace[i]);
        }
    }
    assert forall|i: int| 0 <= i < n + 1 implies #[trigger] moves_on(d, t, u, i) by {
        if i < n {
            assert(moves_on(d, trace, states, i));
        }
    }
}

proof fn follows_frame<D: Descent>(
    d: D,
    start: Seq<Real>,
    n: int,
    trace: Seq<Vec<Real>>,
    states: Seq<D::State>,
    s: D::State,
)
    requires
        follows(d, start, n, trace, states),
        states.len() == n,
    ensures
        follows(d, start, n, trace, states.push(s)),
{
    assert forall|i: int| 0 <= i < n implies #[trigger] moves_on(d, trace, states.push(s), i) by {
        assert(moves_on(d, trace, states, i));
    }
}

/// Takes steps until the goal is reached, there is nowhere to go, a step cannot be computed or
/// the steps are used up.
pub fn descend<D: Descent>(d: &D, start: Vec<Real>, max: usize) -> (r: Descended<D::State>)
    requires
        d.valid(),
        d.fits(start@),
    ensures
        d.fits(r.q@),
        descends(*d, start@, max as int, r.steps as int, r.q@, r.last, r.ending),
{
    let ghost first = start@;
    let ghost mut trace: Seq<Vec<Real>> = seq![start];
    let ghost mut states: Seq<D::State> = Seq::empty();
    let mut q = start;
    let mut last: Option<D::State> = None;
    for i in 0..max
        invariant
            first == start@,
            d.valid(),
            d.fits(q@),
            follows(*d, first, i as int, trace, states),
            states.len() == i,
            q == trace[i as int],
            i == 0 ==> last is None,
            i > 0 ==> last == Some(states[i - 1]),
    {
        let s = d.measure(&q);
        let ghost now = states.push(s);
        proof {
            follows_frame(*d, first, i as int, trace, states, s);
        }
        if d.test(&s) {
            assert(follows(*d, first, i as int, trace, now));
            assert(ends(*d, max as int, i as int, trace, now, Some(s), Ending::Reached));
            return Descended { q, steps: i, last: Some(s), ending: Ending::Reached };
        }
        match d.step(&q, &s) {
            Outcome::Move(next) => {
                proof {
                    follows_on(*d, first, i as int, trace, states, s, next);
                    trace = trace.push(next);
                    states = now;
                }
                q = next;
                last = Some(s);
            },
            Outcome::Rest => {
                assert(follows(*d, first, i as int, trace, now));
                assert(ends(*d, max as int, i as int, trace, now, Some(s), Ending::Rested));
                return Descended { q, steps: i, last: Some(s), ending: Ending::Rested };
            },
            Outcome::Fail => {
                assert(follows(*d, first, i as int, trace, now));
                assert(ends(*d, max as int, i as int, trace, now, Some(s), Ending::Failed));
                return Descended { q, steps: i, last: Some(s), ending: Ending::Failed };
            },
        }
    }
    assert(follows(*d, first, max as int, trace, states));
    assert(ends(*d, max as int, max as int, trace, states, last, Ending::Exhausted));
    Descended { q, steps: max, last, ending: Ending::Exhausted }
}

/// An iteration that reached its goal took fewer steps than allowed, and the goal is
/// measured as reached where it ended.
pub proof fn reaching_is_measured<D: Descent>(
    d: D,
    start: Seq<Real>,
    max: int,
    n: int,
    q: Seq<Real>,
    last: Option<D::State>,
)
    requires
        descends(d, start, max, n, q, last, Ending::Reached),
    ensures
        n < max,
        last matches Some(s) && d.measured(q, s) && d.reached(s),
{
}

/// An iteration measures at most as often as steps are allowed, and only where it was led.
pub proof fn measuring_is_bounded<D: Descent>(
    d: D,
    start: Seq<Real>,
    max: int,
    n: int,
    q: Seq<Real>,
    last: Option<D::State>,
    ending: Ending,
)
    requires
        descends(d, start, max, n, q, last, ending),
    ensures
        exists|trace: Seq<Vec<Real>>, states: Seq<D::State>|
            {
                &&& #[trigger] follows(d, start, n, trace, states)
                &&& ends(d, max, n, trace, states, last, ending)
                &&& q == trace[n]@
                &&& states.len() <= max
                &&& forall|i: int|
                    0 <= i < states.len() ==> d.fits(trace[i]@) && #[trigger] d.measured(
                        trace[i]@,
                        states[i],
                    )
            },
{
    let (trace, states) = choose|trace: Seq<Vec<Real>>, states: Seq<D::State>|
        {
            &&& #[trigger] follows(d, start, n, trace, states)
            &&& ends(d, max, n, trace, states, last, ending)
            &&& q == trace[n]@
        };
    assert forall|i: int| 0 <= i < states.len() implies d.fits(trace[i]@) && #[trigger] d.measured(
        trace[i]@,
        states[i],
    ) by {
        if i < n {
            assert(moves_on(d, trace, states, i));
        }
    }
}

/// An iteration with at least one step allowed measures, and what it measured last is a goal reached
/// exactly if it says so.
pub proof fn reaching_is_told<D: Descent>(
    d: D,
    start: Seq<Real>,
    max: int,
    n: int,
    q: Seq<Real>,
    last: Option<D::State>,
    ending: Ending,
)
    requires
        descends(d, start, max, n, q, last, ending),
        max > 0,
    ensures
        last matches Some(s) && (d.reached(s) <==> ending == Ending::Reached),
        exists|p: Seq<Real>| d.fits(p) && #[trigger] d.measured(p, last->0),
{
    let (trace, states) = choose|trace: Seq<Vec<Real>>, states: Seq<D::State>|
        {
            &&& #[trigger] follows(d, start, n, trace, states)
            &&& ends(d, max, n, trace, states, last, ending)
            &&& q == trace[n]@
        };
    if ending == Ending::Exhausted {
        assert(moves_on(d, trace, states, n - 1));
        assert(d.fits(trace[n - 1]@) && d.measured(trace[n - 1]@, last->0));
    } else {
        assert(d.fits(trace[n]@) && d.measured(trace[n]@, last->0));
    }
}

} // verus!
