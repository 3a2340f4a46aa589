//! Three-state failure isolator placed in front of each upstream target.
//!
//! Time is handed in by the caller as milliseconds on a monotonic clock, so
//! every transition is a function of the configuration, the current state
//! and the event.
use vstd::prelude::*;

verus! {

/// Thresholds of a breaker.
#[derive(Clone, Copy, Debug)]
pub struct Config {
    pub failure_threshold: u32,
    pub success_threshold: u32,
    /// How long the breaker stays open after the last failure, in milliseconds.
    pub timeout_ms: u64,
    pub half_open_max_calls: u32,
}

#[derive(Clone, Copy, Debug, PartialEq, Eq, Structural)]
pub enum State {
    Closed,
    Open,
    HalfOpen,
}

/// Why a call was refused before it was made.
#[derive(Clone, Copy, Debug, PartialEq, Eq, Structural)]
pub enum Rejection {
    /// The breaker is open and the timeout has not elapsed.
    BreakerOpen,
    /// The breaker is half-open and already has its maximum of trial calls.
    HalfOpenCap,
}

/// Abstract state of a breaker: what the transition table speaks of.
pub ghost struct BreakerView {
    pub state: State,
    pub failures: nat,
    pub successes: nat,
    pub in_flight: nat,
    pub last_failure: Option<nat>,
}

/// An event delivered to a breaker.
pub ghost enum BreakerEvent {
    /// A call arrives at the given time.
    Call(nat),
    /// An admitted call succeeded.
    Success,
    /// An admitted call failed at the given time.
    Failure(nat),
}

pub open spec fn reset_view(state: State, last_failure: Option<nat>) -> BreakerView {
    BreakerView { state, failures: 0, successes: 0, in_flight: 0, last_failure }
}

/// True when an open breaker may let a trial call through at `now`.
pub open spec fn timeout_elapsed(cfg: Config, v: BreakerView, now: nat) -> bool {
    match v.last_failure {
        Some(t) => now >= t && now - t >= cfg.timeout_ms,
        None => false,
    }
}

/// Admission of a call in the half-open state: the new view, and whether the call may proceed.
pub open spec fn admit_half_open(cfg: Config, v: BreakerView) -> (BreakerView, bool) {
    if v.in_flight >= cfg.half_open_max_calls {
        (v, false)
    } else {
        (BreakerView { in_flight: v.in_flight + 1, ..v }, true)
    }
}

/// A call arrives at `now`: the new view, and whether the call may proceed.
pub open spec fn on_call(cfg: Config, v: BreakerView, now: nat) -> (BreakerView, bool) {
    match v.state {
        State::Closed => (v, true),
        State::Open => {
            if timeout_elapsed(cfg, v, now) {
                admit_half_open(cfg, reset_view(State::HalfOpen, v.last_failure))
            } else {
                (v, false)
            }
        },
        State::HalfOpen => admit_half_open(cfg, v),
    }
}

/// An admitted call succeeded.
pub open spec fn on_success(cfg: Config, v: BreakerView) -> BreakerView {
    match v.state {
        State::Closed => BreakerView { failures: 0, ..v },
        State::HalfOpen => {
            if v.successes + 1 >= cfg.success_threshold {
                reset_view(State::Closed, v.last_failure)
            } else {
                BreakerView {
                    successes: v.successes + 1,
                    in_flight: if v.in_flight > 0 { (v.in_flight - 1) as nat } else { 0 },
                    ..v
                }
            }
        },
        State::Open => v,
    }
}

/// An admitted call failed at `now`.
pub open spec fn on_failure(cfg: Config, v: BreakerView, now: nat) -> BreakerView {
    match v.state {
        State::Closed => {
            if v.failures + 1 >= cfg.failure_threshold {
                reset_view(State::Open, Some(now))
            } else {
                BreakerView { failures: v.failures + 1, ..v }
            }
        },
        State::HalfOpen => reset_view(State::Open, Some(now)),
        State::Open => v,
    }
}

/// One event applied to a view.
#[verifier::opaque]
pub open spec fn step(cfg: Config, v: BreakerView, e: BreakerEvent) -> BreakerView {
    match e {
        BreakerEvent::Call(now) => on_call(cfg, v, now).0,
        BreakerEvent::Success => on_success(cfg, v),
        BreakerEvent::Failure(now) => on_failure(cfg, v, now),
    }
}

/// The view reached from `v` by delivering `events` in order.
#[verifier::opaque]
pub open spec fn run(cfg: Config, v: BreakerView, events: Seq<BreakerEvent>) -> BreakerView
    decreases events.len(),
{
    if events.len() == 0 {
        v
    } else {
        step(cfg, run(cfg, v, events.drop_last()), events.last())
    }
}

/// The view of a breaker that was just created.
pub open spec fn initial_view() -> BreakerView {
    reset_view(State::Closed, None)
}

/// Well-formedness of a view: an open breaker knows when it last failed,
/// and only a half-open breaker has trial calls in flight.
pub open spec fn view_wf(cfg: Config, v: BreakerView) -> bool {
    &&& (v.state == State::Open ==> v.last_failure is Some)
    &&& (v.state != State::HalfOpen ==> v.in_flight == 0 && v.successes == 0)
    &&& (v.state == State::HalfOpen ==> v.in_flight <= cfg.half_open_max_calls)
    &&& (v.state != State::Closed ==> v.failures == 0)
}

/// The transition table, written row by row as a relation between a view,
/// an event and the next view.
#[verifier::opaque]
pub open spec fn table_allows(cfg: Config, v: BreakerView, e: BreakerEvent, w: BreakerView) -> bool {
    match (v.state, e) {
        (State::Closed, BreakerEvent::Success) =>
            w.state == State::Closed && w.failures == 0,
        (State::Closed, BreakerEvent::Failure(now)) =>
            if v.failures + 1 < cfg.failure_threshold {
                w.state == State::Closed && w.failures == v.failures + 1
            } else {
                w.state == State::Open && w.last_failure == Some(now) && w.failures == 0 && w.successes == 0
            },
        (State::Closed, BreakerEvent::Call(_)) => w == v,
        (State::Open, BreakerEvent::Call(now)) =>
            if timeout_elapsed(cfg, v, now) {
                w.state == State::HalfOpen && w.successes == 0 && w.failures == 0
            } else {
                w == v
            },
        (State::Open, _) => w == v,
        (State::HalfOpen, BreakerEvent::Call(_)) =>
            w.state == State::HalfOpen && (v.in_flight >= cfg.half_open_max_calls ==> w == v),
        (State::HalfOpen, BreakerEvent::Success) =>
            if v.successes + 1 < cfg.success_threshold {
                w.state == State::HalfOpen && w.successes == v.successes + 1
            } else {
                w.state == State::Closed && w.failures == 0 && w.successes == 0
            },
        (State::HalfOpen, BreakerEvent::Failure(now)) =>
            w.state == State::Open && w.last_failure == Some(now) && w.failures == 0 && w.successes == 0,
    }
}

/// Counters that are reported but take no part in the transitions.
#[derive(Clone, Copy, Debug)]
pub struct CircuitBreakerStats {
    pub total_requests: u64,
    pub total_failures: u64,
    pub current_failures: u32,
    pub current_successes: u32,
}

pub struct CircuitBreaker {
    config: Config,
    state: State,
    failure_count: u32,
    success_count: u32,
    half_open_calls: u32,
    last_failure_ms: Option<u64>,
    total_requests: u64,
    total_failures: u64,
}

impl View for CircuitBreaker {
    type V = BreakerView;

    closed spec fn view(&self) -> BreakerView {
        BreakerView {
            state: self.state,
            failures: self.failure_count as nat,
            successes: self.success_count as nat,
            in_flight: self.half_open_calls as nat,
            last_failure: match self.last_failure_ms {
                Some(t) => Some(t as nat),
                None => None,
            },
        }
    }
}

impl CircuitBreaker {
    pub closed spec fn config(&self) -> Config {
        self.config
    }

    pub closed spec fn wf(&self) -> bool {
        &&& view_wf(self.config, self@)
        &&& (self.state == State::Closed ==> self.failure_count < self.config.failure_threshold
            || self.failure_count == 0)
        &&& (self.state == State::HalfOpen ==> self.success_count < self.config.success_threshold
            || self.success_count == 0)
    }

    pub closed spec fn requests(&self) -> u64 {
        self.total_requests
    }

    pub closed spec fn failures_total(&self) -> u64 {
        self.total_failures
    }

    pub fn new(config: Config) -> (r: Self)
        ensures
            r@ == initial_view(),
            r.config() == config,
            r.wf(),
            r.requests() == 0,
            r.failures_total() == 0,
    {
        CircuitBreaker {
            config,
            state: State::Closed,
            failure_count: 0,
            success_count: 0,
            half_open_calls: 0,
            last_failure_ms: None,
            total_requests: 0,
            total_failures: 0,
        }
    }

    pub fn get_state(&self) -> (r: State)
        ensures
            r == self@.state,
    {
        self.state
    }

    fn admit_half_open(&mut self) -> (r: Result<(), Rejection>)
        requires
            old(self).wf(),
            old(self).state == State::HalfOpen,
        ensures
            final(self).wf(),
            final(self).config() == old(self).config(),
            final(self).requests() == old(self).requests(),
            final(self).failures_total() == old(self).failures_total(),
            final(self)@ == admit_half_open(old(self).config(), old(self)@).0,
            r is Ok <==> admit_half_open(old(self).config(), old(self)@).1,
            r is Err ==> r == Err::<(), Rejection>(Rejection::HalfOpenCap),
    {
        if self.half_open_calls >= self.config.half_open_max_calls {
            Err(Rejection::HalfOpenCap)
        } else {
            self.half_open_calls = self.half_open_calls + 1;
            Ok(())
        }
    }

    /// Decides whether a call that arrives at `now_ms` may be made.
    pub fn try_acquire(&mut self, now_ms: u64) -> (r: Result<(), Rejection>)
        requires
            old(self).wf(),
        ensures
            final(self).wf(),
            final(self).config() == old(self).config(),
            final(self)@ == on_call(old(self).config(), old(self)@, now_ms as nat).0,
            r is Ok <==> on_call(old(self).config(), old(self)@, now_ms as nat).1,
            r == Err::<(), Rejection>(Rejection::BreakerOpen) <==> (old(self)@.state == State::Open
                && !timeout_elapsed(old(self).config(), old(self)@, now_ms as nat)),
            final(self).requests() == if old(self).requests() < u64::MAX {
                (old(self).requests() + 1) as u64
            } else {
                old(self).requests()
            },
            final(self).failures_total() == old(self).failures_total(),
    {
        self.total_requests = self.total_requests.saturating_add(1);
        match self.state {
            State::Closed => Ok(()),
            State::Open => {
                if self.should_attempt_reset(now_ms) {
                    self.transition_to_half_open();
                    self.admit_half_open()
                } else {
                    Err(Rejection::BreakerOpen)
                }
            },
            State::HalfOpen => self.admit_half_open(),
        }
    }

    fn should_attempt_reset(&self, now_ms: u64) -> (r: bool)
        ensures
            r == timeout_elapsed(self.config, self@, now_ms as nat),
    {
        match self.last_failure_ms {
            Some(t) => now_ms >= t && now_ms - t >= self.config.timeout_ms,
            None => false,
        }
    }

    /// Records that an admitted call succeeded.
    pub fn on_success(&mut self)
        requires
            old(self).wf(),
        ensures
            final(self).wf(),
            final(self).config() == old(self).config(),
            final(self)@ == on_success(old(self).config(), old(self)@),
            final(self).requests() == old(self).requests(),
            final(self).failures_total() == old(self).failures_total(),
    {
        match self.state {
            State::Closed => {
                self.failure_count = 0;
            },
            State::HalfOpen => {
                if self.success_count >= self.config.success_threshold
                    || self.success_count + 1 >= self.config.success_threshold {
                    self.transition_to_closed();
                } else {
                    self.success_count = self.success_count + 1;
                    if self.half_open_calls > 0 {
                        self.half_open_calls = self.half_open_calls - 1;
                    }
                }
            },
            State::Open => {},
        }
    }

    /// Records that an admitted call failed at `now_ms`.
    pub fn on_failure(&mut self, now_ms: u64)
        requires
            old(self).wf(),
        ensures
            final(self).wf(),
            final(self).config() == old(self).config(),
            final(self)@ == on_failure(old(self).config(), old(self)@, now_ms as nat),
            final(self).requests() == old(self).requests(),
            final(self).failures_total() == if old(self).failures_total() < u64::MAX {
                (old(self).failures_total() + 1) as u64
            } else {
                old(self).failures_total()
            },
    {
        self.total_failures = self.total_failures.saturating_add(1);
        match self.state {
            State::Closed => {
                if self.failure_count >= self.config.failure_threshold
                    || self.failure_count + 1 >= self.config.failure_threshold {
                    self.transition_to_open(now_ms);
                } else {
                    self.failure_count = self.failure_count + 1;
                }
            },
            State::HalfOpen => {
                self.transition_to_open(now_ms);
            },
            State::Open => {},
        }
    }

    fn transition_to_open(&mut self, now_ms: u64)
        ensures
            final(self)@ == reset_view(State::Open, Some(now_ms as nat)),
            final(self).config() == old(self).config(),
            final(self).requests() == old(self).requests(),
            final(self).failures_total() == old(self).failures_total(),
    {
        self.state = State::Open;
        self.failure_count = 0;
        self.success_count = 0;
        self.half_open_calls = 0;
        self.last_failure_ms = Some(now_ms);
    }

    fn transition_to_closed(&mut self)
        ensures
            final(self)@ == reset_view(State::Closed, old(self)@.last_failure),
            final(self).config() == old(self).config(),
            final(self).requests() == old(self).requests(),
            final(self).failures_total() == old(self).failures_total(),
    {
        self.state = State::Closed;
        self.failure_count = 0;
        self.success_count = 0;
        self.half_open_calls = 0;
    }

    fn transition_to_half_open(&mut self)
        ensures
            final(self)@ == reset_view(State::HalfOpen, old(self)@.last_failure),
            final(self).config() == old(self).config(),
            final(self).requests() == old(self).requests(),
            final(self).failures_total() == old(self).failures_total(),
    {
        self.state = State::HalfOpen;
        self.failure_count = 0;
        self.success_count = 0;
        self.half_open_calls = 0;
    }

    pub fn get_stats(&self) -> (r: CircuitBreakerStats)
        ensures
            r.total_requests == self.requests(),
            r.total_failures == self.failures_total(),
            r.current_failures as nat == self@.failures,
            r.current_successes as nat == self@.successes,
    {
        CircuitBreakerStats {
            total_requests: self.total_requests,
            total_failures: self.total_failures,
            current_failures: self.failure_count,
            current_successes: self.success_count,
        }
    }
}

/// The outcome of a guarded call that did not succeed.
#[derive(Debug)]
pub enum CallError<E> {
    /// The breaker refused the call; it was not made.
    Rejected(Rejection),
    /// The call was made and failed.
    Failed(E),
}

impl CircuitBreaker {
    /// Makes the call `f` at `now_ms` through the breaker: a refused call is
    /// not made; a made call's success or failure is recorded.
    pub fn call<T, E, F: FnOnce() -> Result<T, E>>(&mut self, now_ms: u64, f: F) -> (r: Result<T, CallError<E>>)
        requires
            old(self).wf(),
            f.requires(()),
        ensures
            final(self).wf(),
            final(self).config() == old(self).config(),
            r matches Ok(v) ==> f.ensures((), Ok::<T, E>(v)),
            r matches Err(CallError::Failed(e)) ==> f.ensures((), Err::<T, E>(e)),
            !on_call(old(self).config(), old(self)@, now_ms as nat).1 ==> (r matches Err(CallError::Rejected(k))
                && final(self)@ == on_call(old(self).config(), old(self)@, now_ms as nat).0 && k == (if old(self)@.state
                == State::Open && !timeout_elapsed(old(self).config(), old(self)@, now_ms as nat) {
                Rejection::BreakerOpen
            } else {
                Rejection::HalfOpenCap
            })),
            on_call(old(self).config(), old(self)@, now_ms as nat).1 ==> {
                let admitted = on_call(old(self).config(), old(self)@, now_ms as nat).0;
                match r {
                    Ok(_) => final(self)@ == on_success(old(self).config(), admitted),
                    Err(CallError::Failed(_)) => final(self)@ == on_failure(old(self).config(), admitted, now_ms as nat),
                    Err(CallError::Rejected(_)) => false,
                }
            },
    {
        match self.try_acquire(now_ms) {
            Err(rejection) => Err(CallError::Rejected(rejection)),
            Ok(()) => match f() {
                Ok(v) => {
                    self.on_success();
                    Ok(v)
                },
                Err(e) => {
                    self.on_failure(now_ms);
                    Err(CallError::Failed(e))
                },
            },
        }
    }
}

} // verus!
