//! A bounded, flat retry policy, kept as a state machine: the caller makes
//! each attempt and reports its outcome; the policy says whether to stop.
use vstd::prelude::*;

verus! {

/// How many attempts may be made, and how many have been made.
pub struct RetryPolicy {
    pub max_attempts: usize,
    pub attempts_made: usize,
}

/// What the policy decides after the attempt numbered `made` (counting from 1)
/// ended with `outcome`: stop with that outcome, or make another attempt.
pub open spec fn decide<T, E>(made: nat, max: nat, outcome: Result<T, E>) -> Option<Result<T, E>> {
    if outcome is Ok || made >= max {
        Some(outcome)
    } else {
        None
    }
}

/// Feeds `outcomes` in order to a policy that has made `made` of `max`
/// attempts, until it stops: how many outcomes it took, and what it stopped
/// with (`None` where the outcomes ran out first).
pub open spec fn run_from<T, E>(made: nat, max: nat, outcomes: Seq<Result<T, E>>) -> (nat, Option<Result<T, E>>)
    decreases outcomes.len(),
{
    if outcomes.len() == 0 {
        (0, None)
    } else {
        match decide(made + 1, max, outcomes[0]) {
            Some(r) => (1, Some(r)),
            None => {
                let rest = run_from(made + 1, max, outcomes.drop_first());
                (rest.0 + 1, rest.1)
            },
        }
    }
}

/// A fresh policy allowing `max` attempts, fed the outcomes of successive attempts.
pub open spec fn run<T, E>(max: nat, outcomes: Seq<Result<T, E>>) -> (nat, Option<Result<T, E>>) {
    run_from(0, max, outcomes)
}

impl RetryPolicy {
    pub open spec fn well_formed(&self) -> bool {
        0 < self.max_attempts && self.attempts_made <= self.max_attempts
    }

    /// Whether the policy still allows an attempt.
    pub open spec fn may_attempt(&self) -> bool {
        self.attempts_made < self.max_attempts
    }

    /// A policy that allows `max_attempts` attempts, none made yet.
    pub fn new(max_attempts: usize) -> (r: RetryPolicy)
        requires
            max_attempts > 0,
        ensures
            r.max_attempts == max_attempts,
            r.attempts_made == 0,
            r.well_formed(),
    {
        RetryPolicy { max_attempts, attempts_made: 0 }
    }

    /// Records the outcome of one more attempt. Returns `Some(outcome)` when
    /// the caller is to stop with it: on success, or when that was the last
    /// attempt allowed. Returns `None` when another attempt is to be made.
    pub fn record<T, E>(&mut self, outcome: Result<T, E>) -> (r: Option<Result<T, E>>)
        requires
            old(self).well_formed(),
            old(self).may_attempt(),
        ensures
            final(self).well_formed(),
            final(self).max_attempts == old(self).max_attempts,
            final(self).attempts_made == old(self).attempts_made + 1,
            r == decide(final(self).attempts_made as nat, final(self).max_attempts as nat, outcome),
            r is None ==> final(self).may_attempt(),
    {
        self.attempts_made = self.attempts_made + 1;
        if outcome.is_ok() || self.attempts_made >= self.max_attempts {
            Some(outcome)
        } else {
            None
        }
    }
}

proof fn lemma_run_fails_then_succeeds<T, E>(made: nat, max: nat, outcomes: Seq<Result<T, E>>, k: nat)
    requires
        0 < k,
        made + k <= max,
        k <= outcomes.len(),
        forall|i: int| 0 <= i < k - 1 ==> (#[trigger] outcomes[i]) is Err,
        outcomes[k - 1] is Ok,
    ensures
        run_from(made, max, outcomes) == (k, Some(outcomes[k - 1])),
    decreases k,
{
    if k > 1 {
        let rest = outcomes.drop_first();
        assert forall|i: int| 0 <= i < k - 2 implies (#[trigger] rest[i]) is Err by {
            assert(rest[i] == outcomes[i + 1]);
        }
        assert(outcomes[0] is Err);
        lemma_run_fails_then_succeeds(made + 1, max, rest, (k - 1) as nat);
    }
}

proof fn lemma_run_always_fails<T, E>(made: nat, max: nat, outcomes: Seq<Result<T, E>>)
    requires
        made < max,
        max - made <= outcomes.len(),
        forall|i: int| 0 <= i < max - made ==> (#[trigger] outcomes[i]) is Err,
    ensures
        run_from(made, max, outcomes) == ((max - made) as nat, Some(outcomes[max - made - 1])),
    decreases max - made,
{
    if made + 1 < max {
        let rest = outcomes.drop_first();
        assert forall|i: int| 0 <= i < max - (made + 1) implies (#[trigger] rest[i]) is Err by {
            assert(rest[i] == outcomes[i + 1]);
        }
        assert(outcomes[0] is Err);
        lemma_run_always_fails(made + 1, max, rest);
    }
}

proof fn lemma_run_from_extend<T, E>(made: nat, max: nat, outcomes: Seq<Result<T, E>>, x: Result<T, E>)
    requires
        run_from(made, max, outcomes).1 is None,
    ensures
        run_from(made, max, outcomes).0 == outcomes.len(),
        run_from(made, max, outcomes.push(x)) == (outcomes.len() + 1, decide(made + outcomes.len() + 1, max, x)),
    decreases outcomes.len(),
{
    if outcomes.len() > 0 {
        assert(outcomes.push(x)[0] == outcomes[0]);
        assert(outcomes.push(x).drop_first() =~= outcomes.drop_first().push(x));
        lemma_run_from_extend(made + 1, max, outcomes.drop_first(), x);
    } else {
        assert(outcomes.push(x)[0] == x);
        assert(outcomes.push(x).drop_first() =~= Seq::<Result<T, E>>::empty());
        assert(run_from(made + 1, max, Seq::<Result<T, E>>::empty()) == (0nat, None::<Result<T, E>>));
    }
}

/// Feeding one more outcome to a policy that has not stopped: it has taken
/// every outcome so far, and decides on the new one as the next attempt.
pub(crate) proof fn lemma_run_extend<T, E>(max: nat, outcomes: Seq<Result<T, E>>, x: Result<T, E>)
    requires
        run(max, outcomes).1 is None,
    ensures
        run(max, outcomes).0 == outcomes.len(),
        run(max, outcomes.push(x)) == (outcomes.len() + 1, decide(outcomes.len() + 1, max, x)),
{
    lemma_run_from_extend(0, max, outcomes, x);
}

/// An operation that fails on attempts 1 to k-1 and succeeds on attempt k,
/// with k at most the limit, is invoked exactly k times, and its success is
/// what comes out.
pub proof fn law_success_after_failures<T, E>(max: nat, outcomes: Seq<Result<T, E>>, k: nat)
    requires
        0 < k <= max,
        k <= outcomes.len(),
        forall|i: int| 0 <= i < k - 1 ==> (#[trigger] outcomes[i]) is Err,
        outcomes[k - 1] is Ok,
    ensures
        run(max, outcomes) == (k, Some(outcomes[k - 1])),
{
    lemma_run_fails_then_succeeds(0, max, outcomes, k);
}

/// An operation that always fails is invoked exactly `max` times, and the
/// error of the last invocation is what comes out.
pub proof fn law_exhausted_returns_last_error<T, E>(max: nat, outcomes: Seq<Result<T, E>>)
    requires
        0 < max <= outcomes.len(),
        forall|i: int| 0 <= i < max ==> (#[trigger] outcomes[i]) is Err,
    ensures
        run(max, outcomes) == (max, Some(outcomes[max - 1])),
{
    lemma_run_always_fails(0, max, outcomes);
}

proof fn lemma_run_constant<T, E>(made: nat, max: nat, outcomes: Seq<Result<T, E>>, x: Result<T, E>)
    requires
        made < max,
        forall|i: int| 0 <= i < outcomes.len() ==> #[trigger] outcomes[i] == x,
        run_from(made, max, outcomes).1 is Some,
    ensures
        run_from(made, max, outcomes) == (if x is Ok { 1nat } else { (max - made) as nat }, Some(x)),
    decreases outcomes.len(),
{
    assert(outcomes[0] == x);
    if x is Err && made + 1 < max {
        let rest = outcomes.drop_first();
        assert forall|i: int| 0 <= i < rest.len() implies #[trigger] rest[i] == x by {
            assert(rest[i] == outcomes[i + 1]);
        }
        lemma_run_constant(made + 1, max, rest, x);
    }
}

/// Where every attempt has the same outcome, a run that stops does so with
/// that outcome, after one attempt when it is a success and after `max` when
/// it is an error: nothing but the outcome decides the result.
pub proof fn law_same_outcome_every_time<T, E>(max: nat, outcomes: Seq<Result<T, E>>, x: Result<T, E>)
    requires
        0 < max,
        forall|i: int| 0 <= i < outcomes.len() ==> #[trigger] outcomes[i] == x,
        run(max, outcomes).1 is Some,
    ensures
        run(max, outcomes) == (if x is Ok { 1nat } else { max }, Some(x)),
{
    lemma_run_constant(0, max, outcomes, x);
}

} // verus!
