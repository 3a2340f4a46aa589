//! Laws of the circuit breaker's transition function.
use crate::circuit_breaker::{
    initial_view, on_call, run, step, table_allows, view_wf, BreakerEvent, BreakerView, Config, State,
};
use vstd::prelude::*;

verus! {

/// Every single event moves a well-formed view along a row of the transition
/// table and yields a well-formed view.
pub proof fn lemma_step_respects_table(cfg: Config, v: BreakerView, e: BreakerEvent)
    requires
        view_wf(cfg, v),
    ensures
        table_allows(cfg, v, e, step(cfg, v, e)),
        view_wf(cfg, step(cfg, v, e)),
{
    reveal(table_allows);
    reveal(step);
}

/// For every sequence of events delivered to a new breaker, the state reached
/// is a function of the configuration and the sequence alone, each prefix
/// leaves a well-formed view, and each event moves along a row of the table.
pub proof fn lemma_run_respects_table(cfg: Config, events: Seq<BreakerEvent>)
    ensures
        view_wf(cfg, run(cfg, initial_view(), events)),
        forall|i: int|
            0 <= i < events.len() ==> table_allows(
                cfg,
                run(cfg, initial_view(), events.take(i)),
                #[trigger] events[i],
                run(cfg, initial_view(), events.take(i + 1)),
            ),
    decreases events.len(),
{
    if events.len() == 0 {
        reveal(run);
    } else {
        let prefix = events.drop_last();
        lemma_run_respects_table(cfg, prefix);
        assert(run(cfg, initial_view(), events) == step(
            cfg,
            run(cfg, initial_view(), prefix),
            events.last(),
        )) by {
            reveal(run);
        }
        lemma_step_respects_table(cfg, run(cfg, initial_view(), prefix), events.last());
        assert forall|i: int|
            0 <= i < events.len() implies table_allows(
                cfg,
                run(cfg, initial_view(), events.take(i)),
                #[trigger] events[i],
                run(cfg, initial_view(), events.take(i + 1)),
            ) by {
            if i < events.len() - 1 {
                assert(events.take(i) =~= prefix.take(i));
                assert(events.take(i + 1) =~= prefix.take(i + 1));
                assert(events[i] == prefix[i]);
            } else {
                assert(events.take(i) =~= prefix);
                assert(events.take(i + 1) =~= events);
                assert(events[i] == events.last());
            }
        }
    }
}

/// Two breakers with the same configuration that receive the same events end
/// in the same state.
pub proof fn lemma_run_deterministic(
    cfg: Config,
    events: Seq<BreakerEvent>,
    a: BreakerView,
    b: BreakerView,
)
    requires
        a == run(cfg, initial_view(), events),
        b == run(cfg, initial_view(), events),
    ensures
        a == b,
{
}

/// A half-open breaker never has more trial calls in flight than the
/// configured maximum, and a call that arrives when the maximum is reached is
/// refused without changing the state.
pub proof fn lemma_half_open_cap(cfg: Config, v: BreakerView, now: nat)
    requires
        view_wf(cfg, v),
        v.state == State::HalfOpen,
    ensures
        on_call(cfg, v, now).0.in_flight <= cfg.half_open_max_calls,
        v.in_flight >= cfg.half_open_max_calls ==> !on_call(cfg, v, now).1 && on_call(
            cfg,
            v,
            now,
        ).0 == v,
        v.in_flight < cfg.half_open_max_calls ==> on_call(cfg, v, now).1,
{
}

} // verus!
