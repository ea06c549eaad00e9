use vstd::prelude::*;
use crate::outcome::{Outcome, ProbeResult};

verus! {

/// The retry policy's state for one target, as a mathematical value.
pub struct RetryView {
    /// Probe attempts made so far.
    pub attempts: nat,
    /// Time spent on them, in nanoseconds (saturating at `u64::MAX`).
    pub elapsed: nat,
    /// The final outcome, once the policy has stopped probing.
    pub verdict: Option<Outcome>,
}

/// `x`, or `u64::MAX` where `x` is larger.
pub open spec fn saturate(x: nat) -> nat {
    if x > u64::MAX as nat {
        u64::MAX as nat
    } else {
        x
    }
}

/// Before the first attempt.
pub open spec fn initial_view() -> RetryView {
    RetryView { attempts: 0, elapsed: 0, verdict: None }
}

/// The policy's state after an attempt that produced `o` and took `took`
/// nanoseconds. It stops at the first success, or at the failure of attempt
/// `budget + 1`; once stopped, nothing changes it.
pub open spec fn step(budget: nat, s: RetryView, o: Outcome, took: nat) -> RetryView {
    if s.verdict is Some {
        s
    } else {
        let attempts = s.attempts + 1;
        RetryView {
            attempts,
            elapsed: saturate(s.elapsed + took),
            verdict: if o is Success || attempts == budget + 1 {
                Some(o)
            } else {
                None
            },
        }
    }
}

/// The policy's state after attempts that produced `outs`, in order, taking
/// `took` nanoseconds each.
pub open spec fn run(budget: nat, outs: Seq<Outcome>, took: Seq<u64>) -> RetryView
    decreases outs.len(),
{
    if outs.len() == 0 {
        initial_view()
    } else {
        step(
            budget,
            run(budget, outs.drop_last(), took.drop_last()),
            outs.last(),
            took[outs.len() - 1] as nat,
        )
    }
}

/// Running the first `k` attempts is running the first `k - 1`, then one more.
proof fn lemma_run_prefix(budget: nat, outs: Seq<Outcome>, took: Seq<u64>, k: nat)
    requires
        0 < k <= outs.len(),
        outs.len() == took.len(),
    ensures
        run(budget, outs.take(k as int), took.take(k as int)) == step(
            budget,
            run(budget, outs.take(k - 1), took.take(k - 1)),
            outs[k - 1],
            took[k - 1] as nat,
        ),
{
    assert(outs.take(k as int).drop_last() =~= outs.take(k - 1));
    assert(took.take(k as int).drop_last() =~= took.take(k - 1));
}

/// A target whose every attempt fails is probed exactly `budget + 1` times:
/// after `k` recorded attempts, `min(k, budget + 1)` were made, and the
/// verdict, the last failure, stands from attempt `budget + 1` on.
pub proof fn law_failing_target_exhausts_budget(
    budget: nat,
    outs: Seq<Outcome>,
    took: Seq<u64>,
    k: nat,
)
    requires
        outs.len() == took.len(),
        k <= outs.len(),
        forall|i: int| 0 <= i < outs.len() ==> #[trigger] outs[i] is Failure,
    ensures
        run(budget, outs.take(k as int), took.take(k as int)).attempts == if k <= budget {
            k
        } else {
            budget + 1
        },
        run(budget, outs.take(k as int), took.take(k as int)).verdict == if k <= budget {
            None
        } else {
            Some(outs[budget as int])
        },
    decreases k,
{
    if k == 0 {
        assert(outs.take(0) =~= Seq::<Outcome>::empty());
    } else {
        lemma_run_prefix(budget, outs, took, k);
        law_failing_target_exhausts_budget(budget, outs, took, (k - 1) as nat);
        assert(outs[k - 1] is Failure);
    }
}

/// A target whose first `fails` attempts fail and whose next one succeeds,
/// with `fails <= budget`, is probed exactly `fails + 1` times and reported
/// with that success: the policy stops at the first success.
pub proof fn law_success_stops_retrying(
    budget: nat,
    outs: Seq<Outcome>,
    took: Seq<u64>,
    fails: nat,
    k: nat,
)
    requires
        outs.len() == took.len(),
        fails <= budget,
        fails < outs.len(),
        k <= outs.len(),
        forall|i: int| 0 <= i < fails ==> #[trigger] outs[i] is Failure,
        outs[fails as int] is Success,
    ensures
        run(budget, outs.take(k as int), took.take(k as int)).attempts == if k <= fails {
            k
        } else {
            fails + 1
        },
        run(budget, outs.take(k as int), took.take(k as int)).verdict == if k <= fails {
            None
        } else {
            Some(outs[fails as int])
        },
    decreases k,
{
    if k == 0 {
        assert(outs.take(0) =~= Seq::<Outcome>::empty());
    } else {
        lemma_run_prefix(budget, outs, took, k);
        law_success_stops_retrying(budget, outs, took, fails, (k - 1) as nat);
        if k - 1 < fails {
            assert(outs[k - 1] is Failure);
        }
    }
}

/// With no re-attempts allowed, exactly one attempt is made, whatever it
/// produced, and it is the verdict.
pub proof fn law_zero_budget_single_attempt(outs: Seq<Outcome>, took: Seq<u64>, k: nat)
    requires
        outs.len() == took.len(),
        0 < k <= outs.len(),
    ensures
        run(0, outs.take(k as int), took.take(k as int)).attempts == 1,
        run(0, outs.take(k as int), took.take(k as int)).verdict == Some(outs[0]),
    decreases k,
{
    lemma_run_prefix(0, outs, took, k);
    if k == 1 {
        assert(outs.take(0) =~= Seq::<Outcome>::empty());
    } else {
        law_zero_budget_single_attempt(outs, took, (k - 1) as nat);
    }
}

/// The elapsed time reported never decreases as attempts are recorded.
pub proof fn law_elapsed_monotone(
    budget: nat,
    outs: Seq<Outcome>,
    took: Seq<u64>,
    j: nat,
    k: nat,
)
    requires
        outs.len() == took.len(),
        j <= k <= outs.len(),
    ensures
        run(budget, outs.take(j as int), took.take(j as int)).elapsed <= run(
            budget,
            outs.take(k as int),
            took.take(k as int),
        ).elapsed,
    decreases k,
{
    if j < k {
        lemma_run_prefix(budget, outs, took, k);
        law_elapsed_monotone(budget, outs, took, j, (k - 1) as nat);
    }
}

/// The retry policy applied to one target: the caller probes while
/// `is_finished` is false and records each attempt's outcome and duration.
pub struct RetryState {
    budget: u64,
    failures: u64,
    elapsed_ns: u64,
    verdict: Option<Outcome>,
}

impl View for RetryState {
    type V = RetryView;

    closed spec fn view(&self) -> RetryView {
        RetryView {
            attempts: (self.failures + if self.verdict is Some {
                1nat
            } else {
                0nat
            }) as nat,
            elapsed: self.elapsed_ns as nat,
            verdict: self.verdict,
        }
    }
}

impl RetryState {
    /// The number of re-attempts allowed after a failing first attempt.
    pub closed spec fn retry_budget(&self) -> nat {
        self.budget as nat
    }

    pub closed spec fn wf(&self) -> bool {
        &&& self.failures <= self.budget
        &&& (self.verdict matches Some(Outcome::Failure { .. }) ==> self.failures == self.budget)
    }

    /// A policy that allows `retry_budget` re-attempts, before any attempt.
    pub fn new(retry_budget: u64) -> (r: RetryState)
        ensures
            r.wf(),
            r.retry_budget() == retry_budget,
            r@ == initial_view(),
    {
        RetryState { budget: retry_budget, failures: 0, elapsed_ns: 0, verdict: None }
    }

    /// Whether the policy has stopped: no further attempt is to be made.
    pub fn is_finished(&self) -> (r: bool)
        ensures
            r == (self@.verdict is Some),
    {
        self.verdict.is_some()
    }

    /// Time spent on the attempts so far, in nanoseconds.
    pub fn elapsed_ns(&self) -> (r: u64)
        ensures
            r == self@.elapsed,
    {
        self.elapsed_ns
    }

    /// Records an attempt that produced `outcome` and took `took_ns`
    /// nanoseconds; says whether the policy has now stopped. An attempt
    /// recorded after the policy stopped is ignored.
    pub fn record(&mut self, outcome: Outcome, took_ns: u64) -> (finished: bool)
        requires
            old(self).wf(),
        ensures
            final(self).wf(),
            final(self).retry_budget() == old(self).retry_budget(),
            final(self)@ == step(old(self).retry_budget(), old(self)@, outcome, took_ns as nat),
            finished == (final(self)@.verdict is Some),
    {
        if self.verdict.is_some() {
            return true;
        }
        self.elapsed_ns = self.elapsed_ns.saturating_add(took_ns);
        if outcome.is_success() || self.failures == self.budget {
            self.verdict = Some(outcome);
            true
        } else {
            self.failures = self.failures + 1;
            false
        }
    }

    /// The target's result, once the policy has stopped.
    pub fn into_result(self, target: String) -> (r: Option<ProbeResult>)
        ensures
            r is Some == (self@.verdict is Some),
            r matches Some(p) ==> {
                &&& p.target == target
                &&& Some(p.outcome) == self@.verdict
                &&& p.elapsed_ns == self@.elapsed
            },
    {
        let elapsed_ns = self.elapsed_ns;
        match self.verdict {
            Some(outcome) => Some(ProbeResult { target, outcome, elapsed_ns }),
            None => None,
        }
    }
}

} // verus!
