use vstd::prelude::*;
use vstd::std_specs::iter::IteratorSpec;

verus! {

/// The guess after `iterations` steps of an optimizer whose steps are
/// `steps`: the last of the first `iterations` steps, or `start` when there is
/// none.
pub open spec fn guess_after<S>(steps: Seq<S>, iterations: nat, start: S) -> S {
    let k = if iterations < steps.len() { iterations } else { steps.len() };
    if k == 0 { start } else { steps[k - 1] }
}

/// The outcome after `iterations` steps of an optimizer that can fail: the
/// first error among the first `iterations` steps, and otherwise the last
/// successful step among them, or `last` when there is none.
pub open spec fn try_guess_after<S, E>(steps: Seq<Result<S, E>>, iterations: nat, last: S) -> Result<S, E>
    decreases iterations,
{
    if iterations == 0 || steps.len() == 0 {
        Ok(last)
    } else {
        match steps[0] {
            Ok(s) => try_guess_after(steps.drop_first(), (iterations - 1) as nat, s),
            Err(e) => Err(e),
        }
    }
}

/// The successful values of a sequence of steps none of which failed.
pub open spec fn ok_values<S, E>(steps: Seq<Result<S, E>>) -> Seq<S> {
    steps.map_values(|r: Result<S, E>| r->Ok_0)
}

/// Runs `steps` for at most `iterations` steps and returns the last step, or
/// `start` when the steps end at once or `iterations` is zero.
pub fn ith_step<I: Iterator>(steps: I, iterations: usize, start: I::Item) -> (r: I::Item)
    ensures
        steps.obeys_prophetic_iter_laws() ==> r == guess_after(steps.remaining(), iterations as nat, start),
{
    let mut it = steps;
    let mut last: Option<I::Item> = None;
    let mut k: usize = 0;
    while k < iterations
        invariant
            k <= iterations,
            it.obeys_prophetic_iter_laws() == steps.obeys_prophetic_iter_laws(),
            steps.obeys_prophetic_iter_laws() ==> {
                &&& it.remaining() == steps.remaining().skip(k as int)
                &&& k <= steps.remaining().len()
                &&& last == (if k == 0 { None } else { Some(steps.remaining()[k - 1]) })
            },
        ensures
            k == iterations || (steps.obeys_prophetic_iter_laws() ==> k == steps.remaining().len()),
        decreases iterations - k,
    {
        match it.next() {
            Some(s) => { last = Some(s); },
            None => { break; },
        }
        k += 1;
    }
    match last {
        Some(s) => s,
        None => start,
    }
}

/// Runs fallible `steps` for at most `iterations` steps: the first error ends
/// the run and is returned; otherwise the last successful step is returned, or
/// `start` when there is none.
pub fn try_ith_step<S, E, I: Iterator<Item = Result<S, E>>>(steps: I, iterations: usize, start: S) -> (r: Result<S, E>)
    ensures
        steps.obeys_prophetic_iter_laws() ==> r == try_guess_after(steps.remaining(), iterations as nat, start),
{
    let mut it = steps;
    let mut last = start;
    let mut k: usize = 0;
    while k < iterations
        invariant
            k <= iterations,
            it.obeys_prophetic_iter_laws() == steps.obeys_prophetic_iter_laws(),
            steps.obeys_prophetic_iter_laws() ==> try_guess_after(it.remaining(), (iterations - k) as nat, last)
                == try_guess_after(steps.remaining(), iterations as nat, start),
        decreases iterations - k,
    {
        match it.next() {
            Some(Ok(s)) => { last = s; },
            Some(Err(e)) => { return Err(e); },
            None => { return Ok(last); },
        }
        k += 1;
    }
    Ok(last)
}

/// An optimization method: from a problem and a starting guess it produces
/// the sequence of its successive steps.
pub trait Optimize<Problem, StartingGuess, Step = StartingGuess> {
    /// The iterator over the steps.
    type Steps: Iterator<Item = Step>;

    /// The steps of the method on `problem`, from `starting_guess`.
    fn optimize(&self, problem: Problem, starting_guess: StartingGuess) -> Self::Steps;

    /// The step reached after at most `iterations` of the steps that
    /// `optimize` makes on `problem` from a clone of `starting_guess`, or
    /// `starting_guess` converted to a step when no step is made (see
    /// `ith_step`).
    fn ith_guess(&self, problem: Problem, starting_guess: StartingGuess, iterations: usize) -> (r: Step)
        where StartingGuess: Clone, Step: From<StartingGuess>
        ensures
            exists|guess: StartingGuess, steps: Self::Steps, start: Step|
                #![trigger call_ensures(Self::optimize, (self, problem, guess), steps), call_ensures(Step::from, (starting_guess,), start)]
            {
                &&& cloned(starting_guess, guess)
                &&& call_ensures(Self::optimize, (self, problem, guess), steps)
                &&& call_ensures(Step::from, (starting_guess,), start)
                &&& steps.obeys_prophetic_iter_laws() ==> r == guess_after(steps.remaining(), iterations as nat, start)
            },
    {
        let steps = self.optimize(problem, starting_guess.clone());
        ith_step(steps, iterations, Step::from(starting_guess))
    }

    /// The last of the steps (at most `usize::MAX` of them) that `optimize`
    /// makes on `problem` from a clone of `starting_guess`, or
    /// `starting_guess` converted to a step when it makes none (see
    /// `ith_step`).
    fn solution(&self, problem: Problem, starting_guess: StartingGuess) -> (r: Step)
        where StartingGuess: Clone, Step: From<StartingGuess>
        ensures
            exists|guess: StartingGuess, steps: Self::Steps, start: Step|
                #![trigger call_ensures(Self::optimize, (self, problem, guess), steps), call_ensures(Step::from, (starting_guess,), start)]
            {
                &&& cloned(starting_guess, guess)
                &&& call_ensures(Self::optimize, (self, problem, guess), steps)
                &&& call_ensures(Step::from, (starting_guess,), start)
                &&& steps.obeys_prophetic_iter_laws() ==> r == guess_after(steps.remaining(), usize::MAX as nat, start)
            },
    {
        let steps = self.optimize(problem, starting_guess.clone());
        ith_step(steps, usize::MAX, Step::from(starting_guess))
    }
}

/// An optimization method whose steps can fail.
pub trait TryOptimize<Problem, StartingGuess, Step = StartingGuess> {
    /// What a failed step reports.
    type Error;

    /// The iterator over the steps.
    type Steps: Iterator<Item = Result<Step, Self::Error>>;

    /// The steps of the method on `problem`, from `starting_guess`.
    fn try_optimize(&self, problem: Problem, starting_guess: StartingGuess) -> Self::Steps;

    /// The first error among the first `iterations` steps that `try_optimize`
    /// makes on `problem` from a clone of `starting_guess`, or else the last
    /// of them, or `starting_guess` converted to a step when no step is made
    /// (see `try_ith_step`).
    fn try_ith_guess(&self, problem: Problem, starting_guess: StartingGuess, iterations: usize) -> (r: Result<Step, Self::Error>)
        where StartingGuess: Clone, Step: From<StartingGuess>
        ensures
            exists|guess: StartingGuess, steps: Self::Steps, start: Step|
                #![trigger call_ensures(Self::try_optimize, (self, problem, guess), steps), call_ensures(Step::from, (starting_guess,), start)]
            {
                &&& cloned(starting_guess, guess)
                &&& call_ensures(Self::try_optimize, (self, problem, guess), steps)
                &&& call_ensures(Step::from, (starting_guess,), start)
                &&& steps.obeys_prophetic_iter_laws() ==> r == try_guess_after(steps.remaining(), iterations as nat, start)
            },
    {
        let steps = self.try_optimize(problem, starting_guess.clone());
        try_ith_step(steps, iterations, Step::from(starting_guess))
    }

    /// The first error of the steps (at most `usize::MAX` of them) that
    /// `try_optimize` makes on `problem` from a clone of `starting_guess`, or
    /// else the last of them, or `starting_guess` converted to a step when it
    /// makes none (see `try_ith_step`).
    fn try_solution(&self, problem: Problem, starting_guess: StartingGuess) -> (r: Result<Step, Self::Error>)
        where StartingGuess: Clone, Step: From<StartingGuess>
        ensures
            exists|guess: StartingGuess, steps: Self::Steps, start: Step|
                #![trigger call_ensures(Self::try_optimize, (self, problem, guess), steps), call_ensures(Step::from, (starting_guess,), start)]
            {
                &&& cloned(starting_guess, guess)
                &&& call_ensures(Self::try_optimize, (self, problem, guess), steps)
                &&& call_ensures(Step::from, (starting_guess,), start)
                &&& steps.obeys_prophetic_iter_laws() ==> r == try_guess_after(steps.remaining(), usize::MAX as nat, start)
            },
    {
        let steps = self.try_optimize(problem, starting_guess.clone());
        try_ith_step(steps, usize::MAX, Step::from(starting_guess))
    }
}

/// Running more iterations than there are steps gives the last step, whatever
/// the number of iterations.
pub proof fn lemma_guess_after_exhausted<S>(steps: Seq<S>, iterations: nat, start: S)
    requires
        iterations >= steps.len(),
    ensures
        guess_after(steps, iterations, start) == guess_after(steps, steps.len(), start),
        steps.len() > 0 ==> guess_after(steps, iterations, start) == steps.last(),
{
}

/// One more iteration adds the next step, if there is one.
pub proof fn lemma_guess_after_next<S>(steps: Seq<S>, iterations: nat, start: S)
    requires
        iterations < steps.len(),
    ensures
        guess_after(steps, iterations + 1, start) == steps[iterations as int],
{
}

/// Running more iterations than there are fallible steps gives the same
/// outcome as running exactly as many as there are, whatever the number of
/// iterations: the first error, or else the last step, or the start.
pub proof fn lemma_try_guess_after_exhausted<S, E>(steps: Seq<Result<S, E>>, iterations: nat, start: S)
    requires
        iterations >= steps.len(),
    ensures
        try_guess_after(steps, iterations, start) == try_guess_after(steps, steps.len(), start),
    decreases steps.len(),
{
    if steps.len() > 0 {
        if let Ok(s) = steps[0] {
            lemma_try_guess_after_exhausted(steps.drop_first(), (iterations - 1) as nat, s);
        }
    }
}

/// When no step fails, a run of fallible steps succeeds with the same guess
/// as the run of their values.
pub proof fn lemma_try_guess_without_errors<S, E>(steps: Seq<Result<S, E>>, iterations: nat, start: S)
    requires
        forall|i: int| 0 <= i < steps.len() ==> (#[trigger] steps[i]) is Ok,
    ensures
        try_guess_after(steps, iterations, start) == Ok::<S, E>(guess_after(ok_values(steps), iterations, start)),
    decreases iterations,
{
    if iterations == 0 || steps.len() == 0 {
    } else {
        let rest = steps.drop_first();
        assert forall|i: int| 0 <= i < rest.len() implies (#[trigger] rest[i]) is Ok by {
            assert(rest[i] == steps[i + 1]);
        }
        lemma_try_guess_without_errors(rest, (iterations - 1) as nat, steps[0]->Ok_0);
        assert(ok_values(rest) =~= ok_values(steps).drop_first());
    }
}

/// A run fails with the error of a failed step exactly when that step comes
/// within the iterations and every step before it succeeded.
pub proof fn lemma_try_guess_first_error<S, E>(steps: Seq<Result<S, E>>, iterations: nat, start: S, i: int)
    requires
        0 <= i < steps.len(),
        i < iterations,
        steps[i] is Err,
        forall|j: int| 0 <= j < i ==> (#[trigger] steps[j]) is Ok,
    ensures
        try_guess_after(steps, iterations, start) == steps[i],
    decreases i,
{
    if i > 0 {
        let rest = steps.drop_first();
        assert forall|j: int| 0 <= j < i - 1 implies (#[trigger] rest[j]) is Ok by {
            assert(rest[j] == steps[j + 1]);
        }
        assert(steps[0] is Ok);
        lemma_try_guess_first_error(rest, (iterations - 1) as nat, steps[0]->Ok_0, i - 1);
    }
}

}
