//! When to try again after a failure of the networked backend, and how long
//! to wait first.
//!
//! The policy only decides. Whoever runs the operation counts the failures,
//! asks the policy after each one, and sleeps and reconnects as it says.

use vstd::prelude::*;
use crate::error::ErrorKind;

verus! {

/// What to do after a failure.
#[derive(Clone, Copy, Debug, PartialEq, Eq, Structural)]
pub enum Step {
    /// Wait this long, open a new connection, and run the whole operation again.
    Retry { delay_ms: u64 },
    /// Hand the failure to the caller.
    GiveUp,
}

/// A bound on the attempts, and a delay that doubles from one attempt to
/// the next up to a cap.
#[derive(Clone, Copy, Debug)]
pub struct RetryPolicy {
    max_attempts: u32,
    first_delay_ms: u64,
    max_delay_ms: u64,
}

/// The delay after the given number of failures: the first delay after the
/// first failure, then twice the delay before, but never more than the cap.
pub open spec fn backoff(first: nat, cap: nat, failures: nat) -> nat
    decreases failures,
{
    if failures <= 1 {
        if first <= cap {
            first
        } else {
            cap
        }
    } else {
        let before = backoff(first, cap, (failures - 1) as nat);
        if 2 * before <= cap {
            2 * before
        } else {
            cap
        }
    }
}

/// The delay never exceeds the cap, never shrinks from one failure to the
/// next, and is never below a first delay that respects the cap.
pub proof fn backoff_is_capped_and_grows(first: nat, cap: nat, failures: nat)
    ensures
        backoff(first, cap, failures) <= cap,
        backoff(first, cap, failures) <= backoff(first, cap, failures + 1),
        first <= cap ==> first <= backoff(first, cap, failures),
    decreases failures,
{
    if failures > 1 {
        backoff_is_capped_and_grows(first, cap, (failures - 1) as nat);
    }
}

/// Once the delay has reached the cap it stays there.
proof fn lemma_backoff_stays(first: nat, cap: nat, reached: nat, failures: nat)
    requires
        1 <= reached <= failures,
        backoff(first, cap, reached) == cap,
    ensures
        backoff(first, cap, failures) == cap,
    decreases failures - reached,
{
    if reached < failures {
        backoff_is_capped_and_grows(first, cap, reached);
        backoff_is_capped_and_grows(first, cap, reached + 1);
        lemma_backoff_stays(first, cap, reached + 1, failures);
    }
}

/// The outcome is a failure that was classified as transient.
pub open spec fn retried<T, E, K: Fn(&E) -> ErrorKind>(kind: K, outcome: Result<T, E>) -> bool {
    match outcome {
        Ok(_) => false,
        Err(e) => exists|k: ErrorKind| call_ensures(kind, (&e,), k) && k.transient(),
    }
}

/// The outcome is a success, or a failure that was classified as not transient.
pub open spec fn settled<T, E, K: Fn(&E) -> ErrorKind>(kind: K, outcome: Result<T, E>) -> bool {
    match outcome {
        Ok(_) => true,
        Err(e) => exists|k: ErrorKind| call_ensures(kind, (&e,), k) && !k.transient(),
    }
}

impl RetryPolicy {
    #[verifier::type_invariant]
    spec fn wf(self) -> bool {
        &&& self.max_attempts >= 1
        &&& 1 <= self.first_delay_ms <= self.max_delay_ms
    }

    pub closed spec fn attempts(self) -> nat {
        self.max_attempts as nat
    }

    pub closed spec fn first_delay(self) -> nat {
        self.first_delay_ms as nat
    }

    pub closed spec fn cap(self) -> nat {
        self.max_delay_ms as nat
    }

    /// Whether the three numbers make a policy: at least one attempt, and a
    /// first delay of at least a millisecond that is not above the cap.
    pub open spec fn acceptable(max_attempts: u32, first_delay_ms: u64, max_delay_ms: u64) -> bool {
        max_attempts >= 1 && 1 <= first_delay_ms <= max_delay_ms
    }

    /// What the policy says after a failure of the given kind, the given
    /// number of attempts having failed so far: a failure that is not
    /// transient is handed on at once, and so is any failure once the
    /// attempts are used up.
    pub open spec fn step(self, failures: nat, kind: ErrorKind) -> Step {
        if !kind.transient() || failures >= self.attempts() {
            Step::GiveUp
        } else {
            Step::Retry { delay_ms: backoff(self.first_delay(), self.cap(), failures) as u64 }
        }
    }

    pub fn new(max_attempts: u32, first_delay_ms: u64, max_delay_ms: u64) -> (r: Result<
        RetryPolicy,
        ErrorKind,
    >)
        ensures
            match r {
                Ok(policy) => {
                    &&& RetryPolicy::acceptable(max_attempts, first_delay_ms, max_delay_ms)
                    &&& policy.attempts() == max_attempts
                    &&& policy.first_delay() == first_delay_ms
                    &&& policy.cap() == max_delay_ms
                },
                Err(kind) => {
                    &&& !RetryPolicy::acceptable(max_attempts, first_delay_ms, max_delay_ms)
                    &&& kind == ErrorKind::Validation
                },
            },
    {
        if max_attempts >= 1 && 1 <= first_delay_ms && first_delay_ms <= max_delay_ms {
            Ok(RetryPolicy { max_attempts, first_delay_ms, max_delay_ms })
        } else {
            Err(ErrorKind::Validation)
        }
    }

    pub fn max_attempts(&self) -> (n: u32)
        ensures
            n == self.attempts(),
            n >= 1,
    {
        proof {
            use_type_invariant(self);
        }
        self.max_attempts
    }

    /// The delay after the given number of failures.
    pub fn delay_ms(&self, failures: u32) -> (d: u64)
        ensures
            d == backoff(self.first_delay(), self.cap(), failures as nat),
            1 <= d <= self.cap(),
    {
        proof {
            use_type_invariant(self);
        }
        let ghost first = self.first_delay_ms as nat;
        let ghost cap = self.max_delay_ms as nat;
        let mut d: u64 = self.first_delay_ms;
        let mut n: u32 = 1;
        while n < failures && d < self.max_delay_ms
            invariant
                1 <= n,
                n <= failures || n == 1,
                first == self.first_delay_ms,
                cap == self.max_delay_ms,
                1 <= d <= cap,
                d == backoff(first, cap, n as nat),
            decreases failures - n,
        {
            d = if d >= self.max_delay_ms - d {
                self.max_delay_ms
            } else {
                d + d
            };
            n += 1;
        }
        proof {
            if n < failures {
                lemma_backoff_stays(first, cap, n as nat, failures as nat);
            } else if failures == 0 {
                assert(backoff(first, cap, 0) == backoff(first, cap, 1));
            }
        }
        d
    }

    /// Decides what to do after a failure. `failures` counts the attempts
    /// that have failed so far, this one included.
    pub fn after_failure(&self, failures: u32, kind: ErrorKind) -> (s: Step)
        ensures
            s == self.step(failures as nat, kind),
    {
        if !kind.is_transient() || failures >= self.max_attempts {
            Step::GiveUp
        } else {
            Step::Retry { delay_ms: self.delay_ms(failures) }
        }
    }

    /// The attempts that a run made, as far as their outcomes tell: the
    /// attempts are numbered from one, there is at least one and there are
    /// no more than the policy allows, every attempt but the last failed
    /// with a failure that was classified as transient, and the last one
    /// either succeeded, or failed with a failure that was classified as
    /// not transient, or used up the attempts. The outcome of the last
    /// attempt is the outcome of the run.
    pub open spec fn explains<T, E, A, K>(
        self,
        attempt: A,
        kind: K,
        outcomes: Seq<Result<T, E>>,
        r: Result<T, E>,
    ) -> bool where A: Fn(u32) -> Result<T, E>, K: Fn(&E) -> ErrorKind {
        &&& 1 <= outcomes.len() <= self.attempts()
        &&& outcomes.last() == r
        &&& forall|i: int|
            0 <= i < outcomes.len() ==> call_ensures(
                attempt,
                ((i + 1) as u32,),
                #[trigger] outcomes[i],
            )
        &&& forall|i: int|
            0 <= i < outcomes.len() - 1 ==> retried(kind, #[trigger] outcomes[i])
        &&& outcomes.len() < self.attempts() ==> settled(kind, r)
    }

    /// Runs an operation under the policy. `attempt` makes one attempt and
    /// is told its number; `kind` classifies a failure; `wait` lets the
    /// given number of milliseconds pass. The operation is attempted again,
    /// after a wait, as long as it fails with a transient failure and the
    /// attempts are not used up.
    ///
    /// Nothing is asked of the three functions beyond what the run needs:
    /// `attempt` is only called with the numbers of attempts that the policy
    /// allows, `kind` only with a failure that an attempt returned, and
    /// `wait` only with a delay between one millisecond and the cap.
    pub fn run<T, E, A, K, W>(&self, attempt: A, kind: K, wait: W) -> (r: Result<T, E>) where
        A: Fn(u32) -> Result<T, E>,
        K: Fn(&E) -> ErrorKind,
        W: Fn(u64) -> (),

        requires
            forall|n: u32| 1 <= n <= self.attempts() ==> call_requires(attempt, (n,)),
            forall|n: u32, e: E|
                call_ensures(attempt, (n,), Err::<T, E>(e)) ==> call_requires(kind, (&e,)),
            forall|d: u64| 1 <= d <= self.cap() ==> call_requires(wait, (d,)),
        ensures
            exists|outcomes: Seq<Result<T, E>>| self.explains(attempt, kind, outcomes, r),
    {
        proof {
            use_type_invariant(self);
        }
        let mut n: u32 = 1;
        let ghost mut outcomes: Seq<Result<T, E>> = Seq::empty();
        loop
            invariant
                1 <= n <= self.max_attempts,
                1 <= self.first_delay_ms <= self.max_delay_ms,
                outcomes.len() == n - 1,
                forall|n: u32| 1 <= n <= self.attempts() ==> call_requires(attempt, (n,)),
                forall|n: u32, e: E|
                    call_ensures(attempt, (n,), Err::<T, E>(e)) ==> call_requires(kind, (&e,)),
                forall|d: u64| 1 <= d <= self.cap() ==> call_requires(wait, (d,)),
                forall|i: int|
                    0 <= i < outcomes.len() ==> call_ensures(
                        attempt,
                        ((i + 1) as u32,),
                        #[trigger] outcomes[i],
                    ),
                forall|i: int| 0 <= i < outcomes.len() ==> retried(kind, #[trigger] outcomes[i]),
            decreases self.max_attempts - n,
        {
            let outcome = attempt(n);
            proof {
                outcomes = outcomes.push(outcome);
            }
            match outcome {
                Ok(value) => {
                    proof {
                        assert(self.explains(attempt, kind, outcomes, Ok::<T, E>(value)));
                    }
                    return Ok(value);
                },
                Err(failure) => {
                    let k = kind(&failure);
                    match self.after_failure(n, k) {
                        Step::GiveUp => {
                            proof {
                                assert(self.explains(attempt, kind, outcomes, Err::<T, E>(failure)));
                            }
                            return Err(failure);
                        },
                        Step::Retry { delay_ms } => {
                            proof {
                                backoff_is_capped_and_grows(
                                    self.first_delay(),
                                    self.cap(),
                                    n as nat,
                                );
                            }
                            wait(delay_ms);
                            n += 1;
                        },
                    }
                },
            }
        }
    }
}

/// A policy never asks for more attempts than it allows, never waits longer
/// than its cap, and never retries a failure that is not transient.
pub proof fn retries_are_bounded(policy: RetryPolicy, failures: nat, kind: ErrorKind)
    ensures
        failures >= policy.attempts() ==> policy.step(failures, kind) == Step::GiveUp,
        !kind.transient() ==> policy.step(failures, kind) == Step::GiveUp,
        policy.step(failures, kind) matches Step::Retry { delay_ms } ==> delay_ms <= policy.cap(),
{
    backoff_is_capped_and_grows(policy.first_delay(), policy.cap(), failures);
}

} // verus!
