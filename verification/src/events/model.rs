//! Signals, hints and the state machine that they drive.

use crate::events::{FocusView, KeyboardEventData, KeyboardView, MouseEventData, WindowFocusInfo};
use crate::records::ActivityState;
use crate::time::Timestamp;
use vstd::prelude::*;

verus! {

/// Where an event comes from.
#[derive(Clone, Copy, Debug, PartialEq, Eq, Structural)]
pub enum EventSource {
    Hook,
    Derived,
    Polling,
}

/// Signals drive state transitions and activity timers.
#[derive(Clone, Copy, Debug, PartialEq, Eq, Structural)]
pub enum SignalKind {
    KeyboardInput,
    MouseInput,
    AppChanged,
    WindowChanged,
    ActivityPulse,
    LockStart,
    LockEnd,
}

/// Hints split records or enrich metadata, and do not affect the state.
#[derive(Clone, Copy, Debug, PartialEq, Eq, Structural)]
pub enum HintKind {
    FocusChanged,
    StateChanged,
    TitleChanged,
    PositionChanged,
    SizeChanged,
}

#[derive(Clone, Copy, Debug, PartialEq, Eq, Structural)]
pub enum EventKind {
    Signal(SignalKind),
    Hint(HintKind),
}

#[derive(Debug)]
pub enum EventPayload {
    Keyboard(KeyboardEventData),
    Mouse(MouseEventData),
    Focus(WindowFocusInfo),
    Lock { reason: String },
    Title { window_id: u32, title: String },
    State { from: ActivityState, to: ActivityState },
    Empty,
}

/// A signal or a hint. The flags serve storage and the handling of private data.
#[derive(Debug)]
pub struct EventEnvelope {
    pub id: u64,
    pub timestamp: Timestamp,
    pub source: EventSource,
    pub kind: EventKind,
    pub payload: EventPayload,
    pub derived: bool,
    pub polling: bool,
    pub sensitive: bool,
}

/// A payload as a mathematical value.
#[verifier::ext_equal]
pub enum PayloadView {
    Keyboard(KeyboardView),
    Mouse(MouseEventData),
    Focus(FocusView),
    Lock { reason: Seq<char> },
    Title { window_id: u32, title: Seq<char> },
    State { from: ActivityState, to: ActivityState },
    Empty,
}

/// An envelope as a mathematical value.
#[verifier::ext_equal]
pub struct EnvelopeView {
    pub id: u64,
    pub timestamp: Timestamp,
    pub source: EventSource,
    pub kind: EventKind,
    pub payload: PayloadView,
    pub derived: bool,
    pub polling: bool,
    pub sensitive: bool,
}

impl View for EventPayload {
    type V = PayloadView;

    open spec fn view(&self) -> PayloadView {
        match self {
            EventPayload::Keyboard(data) => PayloadView::Keyboard(data@),
            EventPayload::Mouse(data) => PayloadView::Mouse(*data),
            EventPayload::Focus(info) => PayloadView::Focus(info@),
            EventPayload::Lock { reason } => PayloadView::Lock { reason: reason@ },
            EventPayload::Title { window_id, title } => PayloadView::Title {
                window_id: *window_id,
                title: title@,
            },
            EventPayload::State { from, to } => PayloadView::State { from: *from, to: *to },
            EventPayload::Empty => PayloadView::Empty,
        }
    }
}

impl View for EventEnvelope {
    type V = EnvelopeView;

    open spec fn view(&self) -> EnvelopeView {
        EnvelopeView {
            id: self.id,
            timestamp: self.timestamp,
            source: self.source,
            kind: self.kind,
            payload: self.payload@,
            derived: self.derived,
            polling: self.polling,
            sensitive: self.sensitive,
        }
    }
}

impl Clone for EventPayload {
    fn clone(&self) -> (res: Self)
        ensures
            res@ == self@,
    {
        match self {
            EventPayload::Keyboard(data) => EventPayload::Keyboard(data.clone()),
            EventPayload::Mouse(data) => EventPayload::Mouse(*data),
            EventPayload::Focus(info) => EventPayload::Focus(info.clone()),
            EventPayload::Lock { reason } => EventPayload::Lock { reason: reason.clone() },
            EventPayload::Title { window_id, title } => EventPayload::Title {
                window_id: *window_id,
                title: title.clone(),
            },
            EventPayload::State { from, to } => EventPayload::State { from: *from, to: *to },
            EventPayload::Empty => EventPayload::Empty,
        }
    }
}

impl Clone for EventEnvelope {
    fn clone(&self) -> (res: Self)
        ensures
            res@ == self@,
    {
        EventEnvelope {
            id: self.id,
            timestamp: self.timestamp,
            source: self.source,
            kind: self.kind,
            payload: self.payload.clone(),
            derived: self.derived,
            polling: self.polling,
            sensitive: self.sensitive,
        }
    }
}

impl EventEnvelope {
    pub fn is_signal(&self) -> (r: bool)
        ensures
            r == (self.kind is Signal),
    {
        matches!(self.kind, EventKind::Signal(_))
    }

    pub fn is_hint(&self) -> (r: bool)
        ensures
            r == (self.kind is Hint),
    {
        matches!(self.kind, EventKind::Hint(_))
    }
}

/// Provides events from some source: a hook, a poller, or other events.
pub trait EventProducer {
    fn poll(&mut self) -> Vec<EventEnvelope>;
}

/// Consumes upstream envelopes and may produce further ones.
pub trait EventDeriver {
    fn derive(&mut self, input: &[EventEnvelope]) -> Vec<EventEnvelope>;
}

/// Why a record ends, so that its boundaries are explicit and can be replayed.
#[derive(Clone, Copy, Debug, PartialEq, Eq, Structural)]
pub enum SplitReason {
    StateChange(ActivityState),
    AppWindowChanged,
    TitleChanged,
    LockBoundary,
}

/// Decides whether an event ends the current record.
pub trait SplitPolicy {
    fn split_reason(&self, event: &EventEnvelope) -> Option<SplitReason>;
}

pub struct DefaultSplitPolicy;

impl SplitPolicy for DefaultSplitPolicy {
    fn split_reason(&self, event: &EventEnvelope) -> (r: Option<SplitReason>)
        ensures
            r == match event.kind {
                EventKind::Signal(SignalKind::AppChanged) => Some(SplitReason::AppWindowChanged),
                EventKind::Signal(SignalKind::WindowChanged) => Some(SplitReason::AppWindowChanged),
                EventKind::Hint(HintKind::TitleChanged) => Some(SplitReason::TitleChanged),
                _ => None::<SplitReason>,
            },
    {
        match &event.kind {
            EventKind::Signal(SignalKind::AppChanged | SignalKind::WindowChanged) => Some(
                SplitReason::AppWindowChanged,
            ),
            EventKind::Hint(HintKind::TitleChanged) => Some(SplitReason::TitleChanged),
            _ => None,
        }
    }
}

/// A change of state, computed from signals and timeouts.
#[derive(Clone, Copy, Debug, PartialEq, Eq, Structural)]
pub struct StateTransition {
    pub from: ActivityState,
    pub to: ActivityState,
}

pub trait StateEngine {
    fn current(&self) -> ActivityState;

    fn on_signal(&mut self, event: &EventEnvelope, now: Timestamp) -> Option<StateTransition>;

    fn on_tick(&mut self, now: Timestamp) -> Option<StateTransition>;
}

/// The state of the default engine.
pub struct EngineView {
    pub current: ActivityState,
    pub last_signal_time: Timestamp,
    pub active_grace_secs: int,
    pub idle_threshold_secs: int,
    pub locked: bool,
}

impl EngineView {
    /// The state that the time since the last signal calls for.
    pub open spec fn due(self, now: Timestamp) -> ActivityState {
        let idle = now.secs_since(self.last_signal_time);
        if self.locked {
            ActivityState::Locked
        } else if idle <= self.active_grace_secs {
            ActivityState::Active
        } else if idle <= self.idle_threshold_secs {
            ActivityState::Passive
        } else {
            ActivityState::Inactive
        }
    }

    /// The engine after its state became `to`.
    pub open spec fn moved_to(self, to: ActivityState) -> EngineView {
        EngineView { current: to, ..self }
    }

    /// The engine after an event of the given kind at `now`.
    pub open spec fn after_signal(self, kind: EventKind, now: Timestamp) -> EngineView {
        match kind {
            EventKind::Signal(SignalKind::LockStart) => if self.locked {
                self
            } else {
                EngineView { locked: true, current: ActivityState::Locked, ..self }
            },
            EventKind::Signal(SignalKind::LockEnd) => if self.locked {
                let open = EngineView { locked: false, ..self };
                open.moved_to(open.due(now))
            } else {
                self
            },
            EventKind::Signal(_) => if self.locked {
                self
            } else {
                let seen = EngineView { last_signal_time: now, ..self };
                seen.moved_to(seen.due(now))
            },
            EventKind::Hint(_) => self,
        }
    }

    /// Whether an event of the given kind is reported as a transition.
    pub open spec fn reports(self, kind: EventKind, now: Timestamp) -> bool {
        match kind {
            EventKind::Signal(SignalKind::LockStart) => !self.locked,
            EventKind::Signal(SignalKind::LockEnd) => self.locked,
            _ => self.after_signal(kind, now).current != self.current,
        }
    }

    /// The engine after time advanced to `now`.
    pub open spec fn after_tick(self, now: Timestamp) -> EngineView {
        if self.locked {
            self
        } else {
            self.moved_to(self.due(now))
        }
    }
}

/// Derives the activity state from signals and from the time that passed since the last one.
pub struct DefaultStateEngine {
    current: ActivityState,
    last_signal_time: Timestamp,
    active_grace_secs: i64,
    idle_threshold_secs: i64,
    locked: bool,
}

impl View for DefaultStateEngine {
    type V = EngineView;

    closed spec fn view(&self) -> EngineView {
        EngineView {
            current: self.current,
            last_signal_time: self.last_signal_time,
            active_grace_secs: self.active_grace_secs as int,
            idle_threshold_secs: self.idle_threshold_secs as int,
            locked: self.locked,
        }
    }
}

impl DefaultStateEngine {
    pub fn new(now: Timestamp, active_grace_secs: i64, idle_threshold_secs: i64) -> (r: Self)
        ensures
            r@ == (EngineView {
                current: ActivityState::Inactive,
                last_signal_time: now,
                active_grace_secs: active_grace_secs as int,
                idle_threshold_secs: idle_threshold_secs as int,
                locked: false,
            }),
    {
        DefaultStateEngine {
            current: ActivityState::Inactive,
            last_signal_time: now,
            active_grace_secs,
            idle_threshold_secs,
            locked: false,
        }
    }

    fn compute(&self, now: Timestamp) -> (r: ActivityState)
        ensures
            r == self@.due(now),
    {
        if self.locked {
            ActivityState::Locked
        } else {
            let dt: i64 = now.num_seconds_since(&self.last_signal_time);
            if dt <= self.active_grace_secs {
                ActivityState::Active
            } else if dt <= self.idle_threshold_secs {
                ActivityState::Passive
            } else {
                ActivityState::Inactive
            }
        }
    }
}

impl StateEngine for DefaultStateEngine {
    fn current(&self) -> (r: ActivityState)
        ensures
            r == self@.current,
    {
        self.current
    }

    fn on_signal(&mut self, event: &EventEnvelope, now: Timestamp) -> (r: Option<StateTransition>)
        ensures
            final(self)@ == old(self)@.after_signal(event.kind, now),
            r == if old(self)@.reports(event.kind, now) {
                Some(StateTransition { from: old(self)@.current, to: final(self)@.current })
            } else {
                None
            },
            old(self)@.locked == (old(self)@.current == ActivityState::Locked) ==> (r is Some <==> (
            final(self)@.current != old(self)@.current)),
    {
        match event.kind {
            EventKind::Signal(SignalKind::LockStart) => {
                if self.locked {
                    return None;
                }
                let from = self.current;
                self.locked = true;
                self.current = ActivityState::Locked;
                Some(StateTransition { from, to: self.current })
            },
            EventKind::Signal(SignalKind::LockEnd) => {
                if !self.locked {
                    return None;
                }
                self.locked = false;
                let from = self.current;
                let to = self.compute(now);
                self.current = to;
                Some(StateTransition { from, to })
            },
            EventKind::Signal(_) => {
                if self.locked {
                    return None;
                }
                self.last_signal_time = now;
                let from = self.current;
                let to = self.compute(now);
                if to != from {
                    self.current = to;
                    Some(StateTransition { from, to })
                } else {
                    None
                }
            },
            _ => None,
        }
    }

    fn on_tick(&mut self, now: Timestamp) -> (r: Option<StateTransition>)
        ensures
            final(self)@ == old(self)@.after_tick(now),
            r == if final(self)@.current != old(self)@.current {
                Some(StateTransition { from: old(self)@.current, to: final(self)@.current })
            } else {
                None
            },
    {
        if self.locked {
            return None;
        }
        let from = self.current;
        let to = self.compute(now);
        if to != from {
            self.current = to;
            Some(StateTransition { from, to })
        } else {
            None
        }
    }
}

/// While the engine is locked, only the end of the lock changes it.
pub proof fn law_locked_engine_waits_for_lock_end(e: EngineView, kind: EventKind, now: Timestamp)
    requires
        e.locked,
        kind != EventKind::Signal(SignalKind::LockEnd),
    ensures
        e.after_signal(kind, now) == e,
        e.after_tick(now) == e,
        !e.reports(kind, now),
{
}

/// The state shows the lock: an engine that is in the locked state exactly while it is locked
/// stays that way.
pub proof fn law_state_shows_lock(e: EngineView, kind: EventKind, now: Timestamp)
    requires
        e.locked == (e.current == ActivityState::Locked),
    ensures
        e.after_signal(kind, now).locked == (e.after_signal(kind, now).current
            == ActivityState::Locked),
        e.after_tick(now).locked == (e.after_tick(now).current == ActivityState::Locked),
{
}

/// Hints do not affect the state.
pub proof fn law_hints_leave_engine_alone(e: EngineView, hint: HintKind, now: Timestamp)
    ensures
        e.after_signal(EventKind::Hint(hint), now) == e,
        !e.reports(EventKind::Hint(hint), now),
{
}

/// A signal makes an unlocked engine active when the grace period is not negative.
pub proof fn law_signal_makes_active(e: EngineView, signal: SignalKind, now: Timestamp)
    requires
        !e.locked,
        e.active_grace_secs >= 0,
        signal != SignalKind::LockStart,
        signal != SignalKind::LockEnd,
    ensures
        e.after_signal(EventKind::Signal(signal), now).current == ActivityState::Active,
{
}

/// An unlocked engine is active for the grace period after the last signal, passive until the idle
/// threshold, and inactive from there on.
pub proof fn law_thresholds_decide_the_state(e: EngineView, now: Timestamp)
    requires
        !e.locked,
        e.active_grace_secs <= e.idle_threshold_secs,
    ensures
        ({
            let idle = now.secs_since(e.last_signal_time);
            let state = e.after_tick(now).current;
            &&& state == ActivityState::Active <==> idle <= e.active_grace_secs
            &&& state == ActivityState::Passive <==> e.active_grace_secs < idle
                <= e.idle_threshold_secs
            &&& state == ActivityState::Inactive <==> idle > e.idle_threshold_secs
        }),
{
}

/// How far a state is from being active.
pub open spec fn stillness(s: ActivityState) -> int {
    match s {
        ActivityState::Active => 0,
        ActivityState::Passive => 1,
        ActivityState::Inactive => 2,
        ActivityState::Locked => 3,
    }
}

/// Time alone never makes the state more active.
pub proof fn law_time_only_calms(e: EngineView, sooner: Timestamp, later: Timestamp)
    requires
        sooner.secs_since(e.last_signal_time) <= later.secs_since(e.last_signal_time),
    ensures
        stillness(e.due(sooner)) <= stillness(e.due(later)),
        e.after_tick(sooner).after_tick(later) == e.after_tick(later),
{
}

/// Ticking twice at the same instant is the same as ticking once.
pub proof fn law_tick_is_idempotent(e: EngineView, now: Timestamp)
    ensures
        e.after_tick(now).after_tick(now) == e.after_tick(now),
{
}

/// An event is reported exactly when it changes the state, whatever the state was and whatever the
/// event is.
pub proof fn law_changes_are_reported(e: EngineView, kind: EventKind, now: Timestamp)
    requires
        e.locked == (e.current == ActivityState::Locked),
    ensures
        e.reports(kind, now) <==> e.after_signal(kind, now).current != e.current,
{
}

/// A signal to an unlocked engine is remembered with its time, and the state is that of an engine
/// which had a signal just now: active, unless the thresholds are negative. Nothing else changes.
pub proof fn law_signal_restarts_the_timer(e: EngineView, signal: SignalKind, now: Timestamp)
    requires
        !e.locked,
        signal != SignalKind::LockStart,
        signal != SignalKind::LockEnd,
    ensures
        ({
            let after = e.after_signal(EventKind::Signal(signal), now);
            &&& after.last_signal_time == now
            &&& !after.locked
            &&& after.active_grace_secs == e.active_grace_secs
            &&& after.idle_threshold_secs == e.idle_threshold_secs
            &&& after.current == (if e.active_grace_secs >= 0 {
                ActivityState::Active
            } else if e.idle_threshold_secs >= 0 {
                ActivityState::Passive
            } else {
                ActivityState::Inactive
            })
        }),
{
}

/// After a signal the state is decided by the time since that signal alone, whatever came before
/// it: active up to the grace period, then passive up to the idle threshold, then inactive. It is
/// reported as soon as a tick finds it changed.
pub proof fn law_state_follows_the_last_signal(
    e: EngineView,
    signal: SignalKind,
    at: Timestamp,
    now: Timestamp,
)
    requires
        !e.locked,
        signal != SignalKind::LockStart,
        signal != SignalKind::LockEnd,
    ensures
        ({
            let idle = now.secs_since(at);
            let after = e.after_signal(EventKind::Signal(signal), at).after_tick(now);
            &&& after.last_signal_time == at
            &&& idle <= e.active_grace_secs ==> after.current == ActivityState::Active
            &&& e.active_grace_secs < idle <= e.idle_threshold_secs ==> after.current
                == ActivityState::Passive
            &&& idle > e.active_grace_secs && idle > e.idle_threshold_secs ==> after.current
                == ActivityState::Inactive
        }),
{
}

/// Time changes nothing but the state: neither the lock, nor the last signal, nor the thresholds.
pub proof fn law_tick_changes_the_state_alone(e: EngineView, now: Timestamp)
    ensures
        e.after_tick(now).last_signal_time == e.last_signal_time,
        e.after_tick(now).locked == e.locked,
        e.after_tick(now).active_grace_secs == e.active_grace_secs,
        e.after_tick(now).idle_threshold_secs == e.idle_threshold_secs,
        e.locked ==> e.after_tick(now).current == e.current,
        !e.locked ==> e.after_tick(now).current != ActivityState::Locked,
{
}

/// The start of a lock locks an engine in any state, and is no sign of activity: the last signal
/// stays the one before. A second start changes nothing.
pub proof fn law_lock_start_locks(e: EngineView, now: Timestamp)
    ensures
        ({
            let start = EventKind::Signal(SignalKind::LockStart);
            let after = e.after_signal(start, now);
            &&& after.locked
            &&& !e.locked ==> after.current == ActivityState::Locked && e.reports(start, now)
            &&& after.last_signal_time == e.last_signal_time
            &&& after.active_grace_secs == e.active_grace_secs
            &&& after.idle_threshold_secs == e.idle_threshold_secs
            &&& after.after_signal(start, now) == after
        }),
{
}

/// A lock that started and ended leaves the engine as if only the time had passed: the state is
/// decided by the last signal before the lock. The end is reported.
pub proof fn law_lock_end_undoes_lock_start(e: EngineView, start: Timestamp, end: Timestamp)
    requires
        !e.locked,
    ensures
        ({
            let locked = e.after_signal(EventKind::Signal(SignalKind::LockStart), start);
            &&& locked.after_signal(EventKind::Signal(SignalKind::LockEnd), end) == e.after_tick(
                end,
            )
            &&& locked.reports(EventKind::Signal(SignalKind::LockEnd), end)
        }),
{
}

/// The end of a lock that never started changes nothing, and is not reported.
pub proof fn law_lock_end_needs_a_lock(e: EngineView, now: Timestamp)
    requires
        !e.locked,
    ensures
        e.after_signal(EventKind::Signal(SignalKind::LockEnd), now) == e,
        !e.reports(EventKind::Signal(SignalKind::LockEnd), now),
{
}

} // verus!
