//! A circuit breaker: opens after consecutive failures, cools down, then lets a
//! bounded number of trial requests through.
use vstd::prelude::*;
use crate::config::policy::CircuitBreakerPolicy;
use crate::error::NetError;
use crate::text::push_str;
use crate::time::{Duration, Instant};

verus! {

/// Failures in a row, when the circuit opened, and trial requests let through.
#[derive(Debug, Clone, Copy, PartialEq, Eq, Structural)]
pub struct CircuitState {
    pub consecutive_failures: usize,
    pub opened_at: Option<Instant>,
    pub half_open_in_flight: usize,
}

/// Nanoseconds from `t` to `now`, or zero when `now` is earlier.
pub open spec fn elapsed_nanos(t: Instant, now: Instant) -> nat {
    if now.stamp() >= t.stamp() { (now.stamp() - t.stamp()) as nat } else { 0 }
}

/// Whether a request at `now` is refused because the cooldown is still running.
pub open spec fn cooling_down(s: CircuitState, p: CircuitBreakerPolicy, now: Instant) -> bool {
    match s.opened_at {
        Some(t) => elapsed_nanos(t, now) < p.open_window.total_nanos(),
        None => false,
    }
}

/// Whether a request at `now` is let through.
pub open spec fn admits(s: CircuitState, p: CircuitBreakerPolicy, now: Instant) -> bool {
    match s.opened_at {
        None => true,
        Some(_) => !cooling_down(s, p, now) && s.half_open_in_flight < p.half_open_permits,
    }
}

/// The state after a request at `now` is let through.
pub open spec fn after_admit(s: CircuitState) -> CircuitState {
    match s.opened_at {
        None => s,
        Some(_) => CircuitState { half_open_in_flight: (s.half_open_in_flight + 1) as usize, ..s },
    }
}

/// The state after a success: closed, no failures, no trial requests.
pub open spec fn after_success() -> CircuitState {
    CircuitState { consecutive_failures: 0, opened_at: None, half_open_in_flight: 0 }
}

/// The state after a failure at `now`: one more failure (saturating); at the
/// threshold the circuit (re)opens at `now` with no trial requests.
pub open spec fn after_failure(s: CircuitState, p: CircuitBreakerPolicy, now: Instant) -> CircuitState {
    let f = if s.consecutive_failures == usize::MAX { usize::MAX } else { (s.consecutive_failures + 1) as usize };
    if f >= p.failure_threshold {
        CircuitState { consecutive_failures: f, opened_at: Some(now), half_open_in_flight: 0 }
    } else {
        CircuitState { consecutive_failures: f, ..s }
    }
}

pub uninterp spec fn duration_debug_text(secs: u64, subsec_nanos: u32) -> Seq<char>;

/// How `{:?}` prints std's `Duration::new(secs, subsec_nanos)`, a function of
/// the two numbers alone.
#[verifier::external_body]
fn duration_debug(secs: u64, subsec_nanos: u32) -> (r: String)
    requires
        subsec_nanos < 1_000_000_000,
    ensures
        r@ == duration_debug_text(secs, subsec_nanos),
{
    format!("{:?}", std::time::Duration::new(secs, subsec_nanos))
}

/// Whole seconds of a span of `nanos` nanoseconds, capped at `u64::MAX`.
pub open spec fn whole_secs(nanos: nat) -> u64 {
    if nanos / 1_000_000_000 > u64::MAX { u64::MAX } else { (nanos / 1_000_000_000) as u64 }
}

/// Nanoseconds past the whole seconds of a span of `nanos` nanoseconds.
pub open spec fn subsec(nanos: nat) -> u32 {
    (nanos % 1_000_000_000) as u32
}

/// How a span of `nanos` nanoseconds is printed.
pub open spec fn span_text(nanos: nat) -> Seq<char> {
    duration_debug_text(whole_secs(nanos), subsec(nanos))
}

/// Prints a span as std's `Debug` for `Duration` does.
fn span_debug(d: &Duration) -> (r: String)
    ensures
        r@ == span_text(d.total_nanos()),
{
    let n = d.as_nanos();
    let q = n / 1_000_000_000;
    let secs: u64 = if q > u64::MAX as u128 { u64::MAX } else { q as u64 };
    let sub: u32 = (n % 1_000_000_000) as u32;
    duration_debug(secs, sub)
}

/// Guards a destination with the circuit-breaker policy.
#[derive(Debug)]
pub struct CircuitBreaker {
    policy: CircuitBreakerPolicy,
    state: CircuitState,
}

impl CircuitBreaker {
    /// The breaker's state.
    pub closed spec fn current(&self) -> CircuitState {
        self.state
    }

    /// The breaker's policy.
    pub closed spec fn rules(&self) -> CircuitBreakerPolicy {
        self.policy
    }

    /// A closed breaker with `policy`.
    pub fn new(policy: CircuitBreakerPolicy) -> (b: CircuitBreaker)
        ensures
            b.current() == after_success(),
            b.rules() == policy,
    {
        CircuitBreaker {
            policy,
            state: CircuitState { consecutive_failures: 0, opened_at: None, half_open_in_flight: 0 },
        }
    }

    /// Whether a request at `now` may go out; an open circuit refuses during
    /// the cooldown and beyond its trial permits.
    pub fn allow_at(&mut self, now: Instant) -> (r: Result<(), NetError>)
        ensures
            final(self).rules() == old(self).rules(),
            admits(old(self).current(), old(self).rules(), now) ==> r is Ok && final(self).current() == after_admit(old(self).current()),
            !admits(old(self).current(), old(self).rules(), now) ==> final(self).current() == old(self).current()
                && (r matches Err(NetError::CircuitOpen(m)) && if cooling_down(old(self).current(), old(self).rules(), now) {
                    m@ == "cooldown active for "@ + span_text(
                        (old(self).rules().open_window.total_nanos() - elapsed_nanos(old(self).current().opened_at.unwrap(), now)) as nat)
                } else {
                    m@ == "half-open concurrency limit reached"@
                }),
    {
        match self.state.opened_at {
            None => Ok(()),
            Some(opened_at) => {
                let elapsed = now.since(&opened_at);
                if elapsed.shorter_than(&self.policy.open_window) {
                    let remaining = self.policy.open_window.saturating_sub(&elapsed);
                    let mut m = "cooldown active for ".to_owned();
                    let d = span_debug(&remaining);
                    push_str(&mut m, d.as_str());
                    return Err(NetError::CircuitOpen(m));
                }
                if self.state.half_open_in_flight >= self.policy.half_open_permits {
                    return Err(NetError::CircuitOpen("half-open concurrency limit reached".to_owned()));
                }
                self.state.half_open_in_flight = self.state.half_open_in_flight + 1;
                Ok(())
            },
        }
    }

    /// Whether a request may go out now.
    pub fn allow(&mut self) -> (r: Result<(), NetError>)
        ensures
            final(self).rules() == old(self).rules(),
            old(self).current().opened_at is None ==> r is Ok && final(self).current() == old(self).current(),
            r is Ok ==> final(self).current() == after_admit(old(self).current()),
            r is Err ==> final(self).current() == old(self).current() && r->Err_0 is CircuitOpen,
    {
        self.allow_at(Instant::now())
    }

    /// Records a success: the circuit closes.
    pub fn on_success(&mut self) -> (r: Result<(), NetError>)
        ensures
            r is Ok,
            final(self).current() == after_success(),
            final(self).rules() == old(self).rules(),
    {
        self.state = CircuitState { consecutive_failures: 0, opened_at: None, half_open_in_flight: 0 };
        Ok(())
    }

    /// Records a failure at `now`.
    pub fn on_failure_at(&mut self, now: Instant) -> (r: Result<(), NetError>)
        ensures
            r is Ok,
            final(self).current() == after_failure(old(self).current(), old(self).rules(), now),
            final(self).rules() == old(self).rules(),
    {
        self.state.consecutive_failures = self.state.consecutive_failures.saturating_add(1);
        if self.state.consecutive_failures >= self.policy.failure_threshold {
            self.state.opened_at = Some(now);
            self.state.half_open_in_flight = 0;
        }
        Ok(())
    }

    /// Records a failure now.
    pub fn on_failure(&mut self) -> (r: Result<(), NetError>)
        ensures
            r is Ok,
            final(self).rules() == old(self).rules(),
            exists|now: Instant| final(self).current() == #[trigger] after_failure(old(self).current(), old(self).rules(), now),
    {
        let now = Instant::now();
        self.on_failure_at(now)
    }
}

/// A closed circuit lets every request through and stays as it is.
pub proof fn lemma_closed_admits(s: CircuitState, p: CircuitBreakerPolicy, now: Instant)
    requires
        s.opened_at is None,
    ensures
        admits(s, p, now),
        after_admit(s) == s,
{
}

/// After a success the circuit is closed, whatever came before.
pub proof fn lemma_success_closes(p: CircuitBreakerPolicy, now: Instant)
    ensures
        admits(after_success(), p, now),
        after_success().consecutive_failures == 0,
{
}

/// A failure that reaches the threshold opens the circuit: until the open
/// window has passed, every request is refused.
pub proof fn lemma_threshold_opens(s: CircuitState, p: CircuitBreakerPolicy, t: Instant, now: Instant)
    requires
        s.consecutive_failures + 1 >= p.failure_threshold,
        t.stamp() <= now.stamp() < t.stamp() + p.open_window.total_nanos(),
    ensures
        !admits(after_failure(s, p, t), p, now),
        cooling_down(after_failure(s, p, t), p, now),
{
}

/// Failures below the threshold leave a closed circuit closed.
pub proof fn lemma_below_threshold_stays_closed(s: CircuitState, p: CircuitBreakerPolicy, t: Instant)
    requires
        s.opened_at is None,
        s.consecutive_failures + 1 < p.failure_threshold,
    ensures
        after_failure(s, p, t).opened_at is None,
        after_failure(s, p, t).consecutive_failures == s.consecutive_failures + 1,
{
}

/// Once the window has passed, an open circuit lets at most the permitted
/// number of trial requests through.
pub proof fn lemma_trial_permits(s: CircuitState, p: CircuitBreakerPolicy, now: Instant)
    requires
        s.opened_at is Some,
        admits(s, p, now),
    ensures
        after_admit(s).half_open_in_flight == s.half_open_in_flight + 1,
        after_admit(s).half_open_in_flight <= p.half_open_permits,
{
}

} // verus!

verus! {

/// The state after `n` failures at `t`, one after another, from `s`.
pub open spec fn after_failures(s: CircuitState, p: CircuitBreakerPolicy, t: Instant, n: nat) -> CircuitState
    decreases n,
{
    if n == 0 { s } else { after_failure(after_failures(s, p, t, (n - 1) as nat), p, t) }
}

/// After a success the breaker lets requests through until failures reach
/// the threshold: fewer failures than that leave it closed and admitting.
pub proof fn lemma_closed_until_threshold(p: CircuitBreakerPolicy, t: Instant, now: Instant, n: nat)
    requires
        n < p.failure_threshold,
    ensures
        after_failures(after_success(), p, t, n).opened_at is None,
        after_failures(after_success(), p, t, n).consecutive_failures == n,
        admits(after_failures(after_success(), p, t, n), p, now),
    decreases n,
{
    if n > 0 {
        lemma_closed_until_threshold(p, t, now, (n - 1) as nat);
    }
}

/// Once the open window has passed, an open breaker lets trial requests
/// through while permits are left, and then refuses until a success or a
/// failure changes its state.
pub proof fn lemma_half_open_after_cooldown(s: CircuitState, p: CircuitBreakerPolicy, now: Instant)
    requires
        s.opened_at is Some,
        elapsed_nanos(s.opened_at.unwrap(), now) >= p.open_window.total_nanos(),
    ensures
        admits(s, p, now) <==> s.half_open_in_flight < p.half_open_permits,
        !cooling_down(s, p, now),
{
}

} // verus!
