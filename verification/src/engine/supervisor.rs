//! Decisions of the supervisor: which tasks run at a tick, and what to do
//! after each run of a task (finish, or retry after a delay).
use vstd::prelude::*;
use crate::engine::retry::{delay_spec, RetryPolicy};

verus! {

/// How often the supervisor looks for due tasks, in seconds.
pub const TICK_INTERVAL_SECS: u64 = 60;
/// How far ahead of a tick a task counts as due, in seconds.
pub const DUE_WINDOW_SECS: i64 = 65;

/// What the retry loop does after a run.
#[derive(Debug, Clone, Copy, PartialEq, Eq, Structural)]
pub enum RetryAction {
    /// Keep the run's record as the result.
    Finish,
    /// Wait this many milliseconds and run again.
    RetryAfter(u64),
}

/// State of the retry loop of one task: how many retries were made.
#[derive(Debug, Clone, Copy, PartialEq, Eq, Structural)]
pub struct RetryState {
    pub retries_done: u32,
}

/// After a run: a success finishes; a failure is retried while fewer than
/// `max_retries` retries were made, the n-th retry after `delay_for(n)`.
pub open spec fn retry_step(p: RetryPolicy, s: RetryState, succeeded: bool) -> (RetryState, RetryAction) {
    if succeeded || s.retries_done >= p.max_retries {
        (s, RetryAction::Finish)
    } else {
        (
            RetryState { retries_done: (s.retries_done + 1) as u32 },
            RetryAction::RetryAfter(delay_spec(p.base_delay, p.max_delay, (s.retries_done + 1) as u32)),
        )
    }
}

impl RetryState {
    /// Before the first run.
    pub fn start() -> (s: RetryState)
        ensures
            s.retries_done == 0,
    {
        RetryState { retries_done: 0 }
    }
}

/// Decides what follows a run of a task under `policy`.
pub fn after_attempt(policy: &RetryPolicy, state: RetryState, succeeded: bool) -> (r: (
    RetryState,
    RetryAction,
))
    ensures
        r == retry_step(*policy, state, succeeded),
        succeeded || state.retries_done >= policy.max_retries ==> r.0 == state && r.1
            == RetryAction::Finish,
        !succeeded && state.retries_done < policy.max_retries ==> r.0.retries_done
            == state.retries_done + 1 && r.1 == RetryAction::RetryAfter(
            delay_spec(policy.base_delay, policy.max_delay, (state.retries_done + 1) as u32),
        ),
{
    if succeeded || !policy.should_retry(state.retries_done) {
        (state, RetryAction::Finish)
    } else {
        let next = state.retries_done + 1;
        (RetryState { retries_done: next }, RetryAction::RetryAfter(policy.delay_for(next)))
    }
}

// ---------------------------------------------------------------------------
// Laws of the retry loop
// ---------------------------------------------------------------------------

/// How many runs the retry loop makes from state `s` when its runs have the
/// outcomes `outcomes` (true for a success), in order.
pub open spec fn runs_made(p: RetryPolicy, s: RetryState, outcomes: Seq<bool>) -> nat
    decreases outcomes.len(),
{
    if outcomes.len() == 0 {
        0
    } else {
        let (next, action) = retry_step(p, s, outcomes[0]);
        match action {
            RetryAction::Finish => 1,
            RetryAction::RetryAfter(_) => 1 + runs_made(p, next, outcomes.drop_first()),
        }
    }
}

/// The delays the retry loop waits from state `s`, in order, when its runs
/// have the outcomes `outcomes`.
pub open spec fn delays_waited(p: RetryPolicy, s: RetryState, outcomes: Seq<bool>) -> Seq<u64>
    decreases outcomes.len(),
{
    if outcomes.len() == 0 {
        Seq::empty()
    } else {
        let (next, action) = retry_step(p, s, outcomes[0]);
        match action {
            RetryAction::Finish => Seq::empty(),
            RetryAction::RetryAfter(d) => seq![d] + delays_waited(p, next, outcomes.drop_first()),
        }
    }
}

/// A failed run that still has a retry left is retried after the backoff
/// delay of that retry: the n-th retry waits `delay_for(n)`.
pub proof fn law_failed_run_waits(p: RetryPolicy, s: RetryState)
    requires
        s.retries_done < p.max_retries,
    ensures
        retry_step(p, s, false).0.retries_done == s.retries_done + 1,
        retry_step(p, s, false).1 == RetryAction::RetryAfter(
            delay_spec(p.base_delay, p.max_delay, (s.retries_done + 1) as u32),
        ),
{
}

proof fn lemma_delays_waited(p: RetryPolicy, r: u32, outcomes: Seq<bool>)
    requires
        r <= p.max_retries,
        outcomes.len() > p.max_retries - r,
        forall|i: int| 0 <= i < outcomes.len() ==> !outcomes[i],
    ensures
        delays_waited(p, RetryState { retries_done: r }, outcomes) =~= Seq::new(
            (p.max_retries - r) as nat,
            |i: int| delay_spec(p.base_delay, p.max_delay, (r + i + 1) as u32),
        ),
    decreases p.max_retries - r,
{
    assert(!outcomes[0]);
    if r < p.max_retries {
        let rest = outcomes.drop_first();
        assert forall|i: int| 0 <= i < rest.len() implies !rest[i] by {
            assert(rest[i] == outcomes[i + 1]);
        }
        lemma_delays_waited(p, (r + 1) as u32, rest);
    }
}

/// A task whose runs all fail waits, between its runs, the backoff delays of
/// its retries in turn: `delay_for(1)`, `delay_for(2)`, ...,
/// `delay_for(max_retries)` (5 s, 10 s, 20 s, 40 s, 60 s, ... for the
/// default policy).
pub proof fn law_failures_wait_backoff(p: RetryPolicy, outcomes: Seq<bool>)
    requires
        outcomes.len() > p.max_retries,
        forall|i: int| 0 <= i < outcomes.len() ==> !outcomes[i],
    ensures
        delays_waited(p, RetryState { retries_done: 0 }, outcomes).len() == p.max_retries,
        forall|i: int|
            0 <= i < p.max_retries ==> #[trigger] delays_waited(p, RetryState { retries_done: 0 }, outcomes)[i]
                == delay_spec(p.base_delay, p.max_delay, (i + 1) as u32),
{
    lemma_delays_waited(p, 0, outcomes);
}

proof fn lemma_runs_made(p: RetryPolicy, r: u32, outcomes: Seq<bool>, k: int)
    requires
        r <= p.max_retries,
        0 <= k < outcomes.len(),
        forall|i: int| 0 <= i < k ==> !outcomes[i],
        outcomes[k] || k == p.max_retries - r,
        k <= p.max_retries - r,
    ensures
        runs_made(p, RetryState { retries_done: r }, outcomes) == k + 1,
    decreases k,
{
    if k > 0 {
        assert(!outcomes[0]);
        let rest = outcomes.drop_first();
        assert forall|i: int| 0 <= i < k - 1 implies !rest[i] by {
            assert(rest[i] == outcomes[i + 1]);
        }
        assert(rest[k - 1] == outcomes[k]);
        lemma_runs_made(p, (r + 1) as u32, rest, k - 1);
    }
}

/// A task whose runs all fail is run `max_retries + 1` times: once, then
/// `max_retries` retries.
pub proof fn law_failures_exhaust_retries(p: RetryPolicy, outcomes: Seq<bool>)
    requires
        outcomes.len() > p.max_retries,
        forall|i: int| 0 <= i < outcomes.len() ==> !outcomes[i],
    ensures
        runs_made(p, RetryState { retries_done: 0 }, outcomes) == p.max_retries + 1,
{
    lemma_runs_made(p, 0, outcomes, p.max_retries as int);
}

/// A success ends the loop: a task whose first success is its run number
/// `k + 1`, with `k <= max_retries`, is run `k + 1` times.
pub proof fn law_success_stops(p: RetryPolicy, outcomes: Seq<bool>, k: int)
    requires
        0 <= k <= p.max_retries,
        k < outcomes.len(),
        outcomes[k],
        forall|i: int| 0 <= i < k ==> !outcomes[i],
    ensures
        runs_made(p, RetryState { retries_done: 0 }, outcomes) == k + 1,
{
    lemma_runs_made(p, 0, outcomes, k);
}

} // verus!
