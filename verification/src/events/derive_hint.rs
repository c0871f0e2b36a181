//! Reports changes of the activity state as hints.

use crate::events::model::{
    DefaultStateEngine, EngineView, EnvelopeView, EventEnvelope, EventKind, EventPayload,
    EventSource, HintKind, PayloadView, StateEngine, StateTransition,
};
use crate::records::ActivityState;
use crate::time::{is_instant, Timestamp};
use vstd::prelude::*;

verus! {

/// The hint that reports a change of state.
pub open spec fn state_hint(
    id: u64,
    timestamp: Timestamp,
    from: ActivityState,
    to: ActivityState,
) -> EnvelopeView {
    EnvelopeView {
        id,
        timestamp,
        source: EventSource::Derived,
        kind: EventKind::Hint(HintKind::StateChanged),
        payload: PayloadView::State { from, to },
        derived: true,
        polling: false,
        sensitive: false,
    }
}

/// The number of a hint that no event gave: the milliseconds since the Unix epoch, which before
/// the epoch count down from the largest number.
pub open spec fn tick_id(now: Timestamp) -> int {
    if now.millis() < 0 {
        now.millis() + 0x1_0000_0000_0000_0000
    } else {
        now.millis()
    }
}

fn report(id: u64, now: Timestamp, tr: StateTransition) -> (r: EventEnvelope)
    ensures
        r@ == state_hint(id, now, tr.from, tr.to),
{
    EventEnvelope {
        id,
        timestamp: now,
        source: EventSource::Derived,
        kind: EventKind::Hint(HintKind::StateChanged),
        payload: EventPayload::State { from: tr.from, to: tr.to },
        derived: true,
        polling: false,
        sensitive: false,
    }
}

/// Runs the default engine and reports what it decides.
pub struct StateDeriver {
    engine: DefaultStateEngine,
}

impl View for StateDeriver {
    type V = EngineView;

    closed spec fn view(&self) -> EngineView {
        self.engine@
    }
}

impl StateDeriver {
    pub fn new(now: Timestamp, active_grace_secs: i64, idle_threshold_secs: i64) -> (r: Self)
        ensures
            r@ == (EngineView {
                current: ActivityState::Inactive,
                last_signal_time: now,
                active_grace_secs: active_grace_secs as int,
                idle_threshold_secs: idle_threshold_secs as int,
                locked: false,
            }),
    {
        StateDeriver { engine: DefaultStateEngine::new(now, active_grace_secs, idle_threshold_secs) }
    }

    /// Feeds one event to the engine, at the time that the event carries.
    pub fn on_signal(&mut self, env: &EventEnvelope) -> (r: Option<EventEnvelope>)
        ensures
            final(self)@ == old(self)@.after_signal(env.kind, env.timestamp),
            match r {
                Some(hint) => old(self)@.reports(env.kind, env.timestamp) && hint@ == state_hint(
                    env.id,
                    env.timestamp,
                    old(self)@.current,
                    final(self)@.current,
                ),
                None => !old(self)@.reports(env.kind, env.timestamp),
            },
    {
        let now = env.timestamp;
        match self.engine.on_signal(env, now) {
            Some(tr) => Some(report(env.id, now, tr)),
            None => None,
        }
    }

    /// Lets time advance to `now`.
    pub fn on_tick(&mut self, now: Timestamp) -> (r: Option<EventEnvelope>)
        ensures
            final(self)@ == old(self)@.after_tick(now),
            match r {
                Some(hint) => final(self)@.current != old(self)@.current && hint@ == state_hint(
                    tick_id(now) as u64,
                    now,
                    old(self)@.current,
                    final(self)@.current,
                ),
                None => final(self)@.current == old(self)@.current,
            },
    {
        match self.engine.on_tick(now) {
            Some(tr) => {
                let millis: i64 = now.timestamp_millis();
                let id: u64 = if millis < 0 {
                    (millis as i128 + 0x1_0000_0000_0000_0000) as u64
                } else {
                    millis as u64
                };
                Some(report(id, now, tr))
            },
            None => None,
        }
    }
}

/// A hint about a change of state names the state before and the state after, and carries the
/// number and the time of what caused it.
pub proof fn law_hint_names_both_states(
    id: u64,
    at: Timestamp,
    from: ActivityState,
    to: ActivityState,
)
    ensures
        ({
            let h = state_hint(id, at, from, to);
            &&& h.id == id
            &&& h.timestamp == at
            &&& h.kind == EventKind::Hint(HintKind::StateChanged)
            &&& h.payload == (PayloadView::State { from, to })
            &&& h.source == EventSource::Derived
            &&& h.derived && !h.polling && !h.sensitive
        }),
{
}

/// The number of a hint that time alone gave tells when that was, to the millisecond, and is a
/// number of 64 bits.
pub proof fn law_tick_ids_tell_the_time(now: Timestamp)
    requires
        is_instant(now.secs(), now.nanos()),
    ensures
        0 <= tick_id(now) <= u64::MAX,
        now.secs() >= 0 ==> tick_id(now) == now.secs() * 1000 + now.nanos() / 1_000_000,
        now.secs() < -1 ==> tick_id(now) == u64::MAX + 1 + now.secs() * 1000 + now.nanos()
            / 1_000_000,
{
}

} // verus!
