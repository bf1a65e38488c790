//! Coalescing wakeup trigger, job classification, and the queue-consumer
//! state machine that drives one workflow per wakeup.
//!
//! The trigger is a capacity-one signal: however many times it is raised
//! before the consumer wakes, at most one pending work unit exists, because
//! the workflow always re-reads ground truth from the store rather than from
//! the trigger itself.

use vstd::prelude::*;

verus! {

/// Result of racing trigger receipt against an external shutdown broadcast.
#[derive(Clone, Copy, PartialEq, Eq, Structural, Debug)]
pub enum Job {
    Work,
    Shutdown,
}

/// Whether a workflow invocation drained all currently actionable work.
#[derive(Clone, Copy, PartialEq, Eq, Structural, Debug)]
pub enum WorkComplete {
    Complete,
    Incomplete,
}

/// A coalescing wakeup signal with capacity one: raising it while a unit is
/// already pending changes nothing, so duplicate work is never enqueued.
#[derive(Clone, Copy, PartialEq, Eq, Structural, Debug)]
pub struct TriggerState {
    pub pending: bool,
}

impl TriggerState {
    /// A fresh trigger with no pending work unit.
    pub fn new() -> (t: TriggerState)
        ensures
            !t.pending,
    {
        TriggerState { pending: false }
    }

    /// Raise the signal. Idempotent: the final state is pending regardless of
    /// how many times this is called before the unit is consumed.
    pub fn trigger(&mut self)
        ensures
            final(self).pending,
    {
        self.pending = true;
    }

    /// Consume the pending unit, if any. Returns whether a unit was pending;
    /// afterwards none is.
    pub fn try_consume(&mut self) -> (was_pending: bool)
        ensures
            was_pending == old(self).pending,
            !final(self).pending,
    {
        let p = self.pending;
        self.pending = false;
        p
    }
}

/// Observable state of one queue consumer: its self-trigger and how many
/// workflow invocations have run so far. A consumer never runs two
/// concurrent workflow iterations; each run happens only while a wakeup
/// unit is pending, so the step function below is the whole story.
#[derive(Clone, Copy, PartialEq, Eq, Structural, Debug)]
pub struct QueueConsumer {
    pub self_trigger: TriggerState,
    pub runs: u64,
}

/// What one Work iteration does to the consumer: the pending unit is
/// consumed, the workflow runs once, and an Incomplete result re-arms the
/// self-trigger so the next iteration follows without polling.
pub open spec fn iteration_spec(c: QueueConsumer, outcome: WorkComplete) -> QueueConsumer {
    QueueConsumer {
        self_trigger: TriggerState { pending: outcome is Incomplete },
        runs: (c.runs + 1) as u64,
    }
}

/// Fold [`iteration_spec`] over a sequence of workflow results.
pub open spec fn run_outcomes(c: QueueConsumer, outcomes: Seq<WorkComplete>) -> QueueConsumer
    decreases outcomes.len(),
{
    if outcomes.len() == 0 {
        c
    } else {
        run_outcomes(iteration_spec(c, outcomes[0]), outcomes.drop_first())
    }
}

impl QueueConsumer {
    /// A consumer that has not yet run and has no wakeup pending. The
    /// one-shot system trigger delivered after startup raises the signal.
    pub fn new() -> (c: QueueConsumer)
        ensures
            !c.self_trigger.pending,
            c.runs == 0,
    {
        QueueConsumer { self_trigger: TriggerState::new(), runs: 0 }
    }

    /// One Work iteration: consume the pending wakeup, account for one
    /// workflow run with the given result, and self-retrigger exactly when
    /// the result was Incomplete. An iteration only ever starts on a
    /// pending wakeup, so no spurious run can occur.
    pub fn run_iteration(&mut self, outcome: WorkComplete)
        requires
            old(self).self_trigger.pending,
            old(self).runs < u64::MAX,
        ensures
            *final(self) == iteration_spec(*old(self), outcome),
    {
        let _ = self.self_trigger.try_consume();
        self.runs = self.runs + 1;
        if let WorkComplete::Incomplete = outcome {
            self.self_trigger.trigger();
        }
    }
}

/// Liveness and economy of the trigger discipline: for a burst of work that
/// resolves as some number of Incomplete results followed by one Complete,
/// a consumer that starts with a wakeup pending runs the workflow exactly
/// once per result — each Incomplete re-arms the trigger for exactly one
/// further run (no missed trigger) — and after the Complete it idles with
/// no wakeup pending (no extra spurious run).
pub proof fn lemma_incomplete_burst_then_idle(c: QueueConsumer, outcomes: Seq<WorkComplete>)
    requires
        c.self_trigger.pending,
        c.runs + outcomes.len() <= u64::MAX,
        outcomes.len() > 0,
        forall|i: int| 0 <= i < outcomes.len() - 1 ==> outcomes[i] is Incomplete,
        outcomes.last() is Complete,
    ensures
        run_outcomes(c, outcomes).runs == c.runs + outcomes.len(),
        !run_outcomes(c, outcomes).self_trigger.pending,
        forall|i: int|
            0 <= i < outcomes.len() ==> run_outcomes(
                c,
                #[trigger] outcomes.take(i),
            ).self_trigger.pending,
    decreases outcomes.len(),
{
    let c1 = iteration_spec(c, outcomes[0]);
    if outcomes.len() == 1 {
        assert(outcomes.take(0) =~= Seq::<WorkComplete>::empty());
        assert(run_outcomes(c, outcomes) == run_outcomes(c1, outcomes.drop_first()));
        assert(outcomes.drop_first().len() == 0);
    } else {
        assert(outcomes[0] is Incomplete);
        let rest = outcomes.drop_first();
        assert(rest.last() == outcomes.last());
        assert(forall|i: int| 0 <= i < rest.len() - 1 ==> rest[i] == outcomes[i + 1]);
        lemma_incomplete_burst_then_idle(c1, rest);
        assert forall|i: int| 0 <= i < outcomes.len() implies run_outcomes(
            c,
            #[trigger] outcomes.take(i),
        ).self_trigger.pending by {
            if i == 0 {
                assert(outcomes.take(0) =~= Seq::<WorkComplete>::empty());
            } else {
                let t = outcomes.take(i);
                assert(t.len() == i);
                assert(t[0] == outcomes[0]);
                assert(t.drop_first() =~= rest.take(i - 1));
                assert(run_outcomes(c, t) == run_outcomes(c1, rest.take(i - 1)));
            }
        }
    }
}

/// Classification of a failed workflow attempt: transient errors are
/// retried with backoff, fatal ones escalate immediately.
#[derive(Clone, Copy, PartialEq, Eq, Structural, Debug)]
pub enum ErrorClass {
    Transient,
    Fatal,
}

/// What the retry wrapper tells its caller to do after a failed attempt.
#[derive(Clone, Copy, PartialEq, Eq, Structural, Debug)]
pub enum RetryDecision {
    /// Wait this long, then attempt the operation again.
    Retry { delay_ms: u64 },
    /// Attempts are exhausted or the error was fatal: escalate to the
    /// supervisor instead of looping silently.
    GiveUp,
}

/// Bounded-attempt, backoff-governed retry policy for a fallible workflow
/// invocation. It is independent of any workflow's result type: the caller
/// classifies its own error and asks what to do next.
#[derive(Clone, Copy, PartialEq, Eq, Structural, Debug)]
pub struct RetryPolicy {
    /// How many retries may follow the first failed attempt.
    pub max_attempts: u32,
    /// Delay before the first retry.
    pub base_delay_ms: u64,
    /// Cap on every delay.
    pub max_delay_ms: u64,
}

/// Delay before the retry following failed attempt number `n` (counting
/// from zero): the base delay doubled per attempt, capped.
pub open spec fn backoff_spec(p: RetryPolicy, n: nat) -> u64
    decreases n,
{
    if n == 0 {
        if p.base_delay_ms <= p.max_delay_ms {
            p.base_delay_ms
        } else {
            p.max_delay_ms
        }
    } else {
        let prev = backoff_spec(p, (n - 1) as nat);
        if prev * 2 <= p.max_delay_ms {
            (prev * 2) as u64
        } else {
            p.max_delay_ms
        }
    }
}

impl RetryPolicy {
    /// The backoff delay for the given failed-attempt count.
    pub fn backoff_delay_ms(&self, attempt: u32) -> (d: u64)
        ensures
            d == backoff_spec(*self, attempt as nat),
    {
        let mut d: u64 = if self.base_delay_ms <= self.max_delay_ms {
            self.base_delay_ms
        } else {
            self.max_delay_ms
        };
        let mut k: u32 = 0;
        while k < attempt
            invariant
                k <= attempt,
                d == backoff_spec(*self, k as nat),
                d <= self.max_delay_ms,
            decreases attempt - k,
        {
            if d <= self.max_delay_ms / 2 {
                d = d * 2;
            } else {
                d = self.max_delay_ms;
            }
            k = k + 1;
        }
        d
    }

    /// Decide what follows a failed attempt: fatal errors and exhausted
    /// attempt budgets escalate; a transient error within budget is retried
    /// after the backoff delay for the attempt just failed.
    pub fn next_decision(&self, attempts_made: u32, class: ErrorClass) -> (d: RetryDecision)
        ensures
            class is Fatal ==> d is GiveUp,
            class is Transient && attempts_made >= self.max_attempts ==> d is GiveUp,
            class is Transient && attempts_made < self.max_attempts ==> d == (RetryDecision::Retry {
                delay_ms: backoff_spec(*self, attempts_made as nat),
            }),
    {
        match class {
            ErrorClass::Fatal => RetryDecision::GiveUp,
            ErrorClass::Transient => {
                if attempts_made < self.max_attempts {
                    RetryDecision::Retry { delay_ms: self.backoff_delay_ms(attempts_made) }
                } else {
                    RetryDecision::GiveUp
                }
            },
        }
    }
}

/// Terminal result of a consumer loop, surfaced to the supervising process:
/// either shutdown was requested, or retries were exhausted and the failure
/// must remain visible to the operator rather than be swallowed.
#[derive(Clone, Copy, PartialEq, Eq, Structural, Debug)]
pub enum ConsumerExit {
    ShutdownRequested,
    RetriesExhausted,
}

} // verus!
