//! From raw input to records: the events become signals and hints, the signals move the state, and
//! hints and changes of state cut the records.

use crate::events::adapter::{
    adapted, adapted_one, focus_after, law_input_adds_its_signal, EventAdapter,
};
use crate::events::derive_hint::{state_hint, tick_id, StateDeriver};
use crate::events::derive_signal::{
    derived, derived_one, law_unlocked_passes_everything, locked_after, LockDeriver,
};
use crate::events::model::{
    law_changes_are_reported, EngineView, EnvelopeView, EventEnvelope, EventKind, HintKind,
    SignalKind,
};
use crate::events::{FocusView, RawEvent, RawEventView};
use crate::records::{
    law_records_are_numbered_in_order, ActivityRecord, ActivityState, BuilderView, RecordBuilder,
    RecordView,
};
use crate::time::Timestamp;
use crate::views::{lemma_take_all, lemma_take_succ, lemma_views_push, view_opt, views};
use vstd::prelude::*;

verus! {

/// How many hints and signals one raw event can give.
pub const ENVELOPES_PER_EVENT: u64 = 6;

/// What a processor remembers: the focus last reported, whether the screen is locked, the state and
/// the record that is open.
#[verifier::ext_equal]
pub struct ProcessorView {
    pub last_focus: Option<FocusView>,
    pub locked: bool,
    pub engine: EngineView,
    pub builder: BuilderView,
}

impl ProcessorView {
    /// The hint that an event gives to the builder: itself, or a change of the state.
    pub open spec fn hint(self, e: EnvelopeView) -> Option<EnvelopeView> {
        match e.kind {
            EventKind::Signal(_) => if self.engine.reports(e.kind, e.timestamp) {
                Some(
                    state_hint(
                        e.id,
                        e.timestamp,
                        self.engine.current,
                        self.engine.after_signal(e.kind, e.timestamp).current,
                    ),
                )
            } else {
                None
            },
            EventKind::Hint(_) => Some(e),
        }
    }

    /// The processor after a signal or hint. A record that it opens starts at `started`.
    pub open spec fn after(self, e: EnvelopeView, started: Timestamp) -> ProcessorView {
        ProcessorView {
            engine: match e.kind {
                EventKind::Signal(_) => self.engine.after_signal(e.kind, e.timestamp),
                EventKind::Hint(_) => self.engine,
            },
            builder: match self.hint(e) {
                Some(h) => self.builder.after_hint(h, started),
                None => self.builder,
            },
            ..self
        }
    }

    /// The record that a signal or hint closes. It ends at `ended`.
    pub open spec fn record(self, e: EnvelopeView, ended: Timestamp) -> Option<RecordView> {
        match self.hint(e) {
            Some(h) => self.builder.emitted(h, ended),
            None => None,
        }
    }

    /// The processor after several signals and hints.
    pub open spec fn after_all(self, es: Seq<EnvelopeView>, started: Timestamp) -> ProcessorView
        decreases es.len(),
    {
        if es.len() == 0 {
            self
        } else {
            self.after_all(es.drop_last(), started).after(es.last(), started)
        }
    }

    /// The records that several signals and hints close, in order.
    pub open spec fn records(
        self,
        es: Seq<EnvelopeView>,
        ended: Timestamp,
        started: Timestamp,
    ) -> Seq<RecordView>
        decreases es.len(),
    {
        if es.len() == 0 {
            Seq::empty()
        } else {
            let before = self.records(es.drop_last(), ended, started);
            match self.after_all(es.drop_last(), started).record(es.last(), ended) {
                Some(r) => before.push(r),
                None => before,
            }
        }
    }

    /// The signals and hints of a batch of raw events.
    pub open spec fn envelopes(self, batch: Seq<RawEventView>) -> Seq<EnvelopeView> {
        derived(self.locked, adapted(self.last_focus, batch))
    }

    /// The processor after a batch of raw events.
    pub open spec fn after_batch(self, batch: Seq<RawEventView>, started: Timestamp) -> ProcessorView {
        ProcessorView {
            last_focus: focus_after(self.last_focus, batch),
            locked: locked_after(self.locked, adapted(self.last_focus, batch)),
            ..self.after_all(self.envelopes(batch), started)
        }
    }

    /// The records that a batch of raw events closes.
    pub open spec fn batch_records(
        self,
        batch: Seq<RawEventView>,
        ended: Timestamp,
        started: Timestamp,
    ) -> Seq<RecordView> {
        self.records(self.envelopes(batch), ended, started)
    }

    /// The hint that the time `now` gives to the builder.
    pub open spec fn timeout_hint(self, now: Timestamp) -> Option<EnvelopeView> {
        let after = self.engine.after_tick(now);
        if after.current != self.engine.current {
            Some(state_hint(tick_id(now) as u64, now, self.engine.current, after.current))
        } else {
            None
        }
    }

    /// The processor after time advanced to `now`.
    pub open spec fn after_time(self, now: Timestamp, started: Timestamp) -> ProcessorView {
        ProcessorView {
            engine: self.engine.after_tick(now),
            builder: match self.timeout_hint(now) {
                Some(h) => self.builder.after_hint(h, started),
                None => self.builder,
            },
            ..self
        }
    }
}

/// The numbers of the records go up by at most one with each signal or hint.
proof fn lemma_numbers(p: ProcessorView, es: Seq<EnvelopeView>, started: Timestamp)
    ensures
        p.builder.next_record_id <= p.after_all(es, started).builder.next_record_id
            <= p.builder.next_record_id + es.len(),
    decreases es.len(),
{
    if es.len() > 0 {
        lemma_numbers(p, es.drop_last(), started);
    }
}

proof fn lemma_adapted_len(last: Option<FocusView>, raw: Seq<RawEventView>)
    ensures
        adapted(last, raw).len() <= 3 * raw.len(),
    decreases raw.len(),
{
    if raw.len() > 0 {
        lemma_adapted_len(last, raw.drop_last());
    }
}

proof fn lemma_derived_len(locked: bool, input: Seq<EnvelopeView>)
    ensures
        derived(locked, input).len() <= 2 * input.len(),
    decreases input.len(),
{
    if input.len() > 0 {
        lemma_derived_len(locked, input.drop_last());
    }
}

/// Makes records of raw input.
pub struct RecordProcessor {
    adapter: EventAdapter,
    locks: LockDeriver,
    states: StateDeriver,
    builder: RecordBuilder,
}

impl View for RecordProcessor {
    type V = ProcessorView;

    closed spec fn view(&self) -> ProcessorView {
        ProcessorView {
            last_focus: self.adapter.last_focus(),
            locked: self.locks.locked(),
            engine: self.states@,
            builder: self.builder@,
        }
    }
}

impl RecordProcessor {
    /// A processor that has seen nothing yet.
    pub fn new(now: Timestamp, active_grace_secs: i64, idle_threshold_secs: i64) -> (r: Self)
        ensures
            r@.last_focus is None,
            !r@.locked,
            r@.engine == (EngineView {
                current: ActivityState::Inactive,
                last_signal_time: now,
                active_grace_secs: active_grace_secs as int,
                idle_threshold_secs: idle_threshold_secs as int,
                locked: false,
            }),
            r@.builder == (BuilderView {
                current_state: ActivityState::Inactive,
                current_record: None,
                current_focus: None,
                next_record_id: 0,
            }),
    {
        RecordProcessor {
            adapter: EventAdapter::new(),
            locks: LockDeriver::new(),
            states: StateDeriver::new(now, active_grace_secs, idle_threshold_secs),
            builder: RecordBuilder::new(ActivityState::Inactive),
        }
    }

    /// The number of the next record.
    pub fn next_record_id(&self) -> (r: u64)
        ensures
            r == self@.builder.next_record_id,
    {
        self.builder.next_record_id()
    }

    pub fn current_state(&self) -> (r: ActivityState)
        ensures
            r == self@.builder.current_state,
    {
        self.builder.current_state()
    }

    fn take_one(&mut self, e: &EventEnvelope, ended: Timestamp, started: Timestamp) -> (r: Option<
        ActivityRecord,
    >)
        requires
            old(self)@.builder.next_record_id < u64::MAX,
        ensures
            final(self)@ == old(self)@.after(e@, started),
            view_opt(r) == old(self)@.record(e@, ended),
    {
        if e.is_signal() {
            match self.states.on_signal(e) {
                Some(hint) => self.builder.on_hint_at(&hint, ended, started),
                None => None,
            }
        } else {
            self.builder.on_hint_at(e, ended, started)
        }
    }

    /// Makes records of a batch of raw events. Records that it closes end at `ended`, and those that
    /// it opens start at `started`.
    pub fn process_events_at(
        &mut self,
        batch: &Vec<RawEvent>,
        ended: Timestamp,
        started: Timestamp,
    ) -> (r: Vec<ActivityRecord>)
        requires
            old(self)@.builder.next_record_id + ENVELOPES_PER_EVENT * batch@.len() < u64::MAX,
        ensures
            final(self)@ == old(self)@.after_batch(views(batch@), started),
            views(r@) == old(self)@.batch_records(views(batch@), ended, started),
    {
        broadcast use lemma_views_push;

        let ghost raw = views(batch@);
        let ghost start = self@;
        let adapted_events = self.adapter.adapt_batch(batch);
        let envelopes = self.locks.derive(&adapted_events);
        let ghost es = start.envelopes(raw);
        let ghost base = self@;
        proof {
            lemma_adapted_len(start.last_focus, raw);
            lemma_derived_len(start.locked, adapted(start.last_focus, raw));
            assert(es.len() <= 6 * raw.len());
            assert(views(envelopes@) == es);
        }
        let mut out: Vec<ActivityRecord> = Vec::new();
        let mut i: usize = 0;
        assert(es.take(0) =~= Seq::empty());
        assert(views(out@) =~= base.records(es.take(0), ended, started));
        while i < envelopes.len()
            invariant
                es == views(envelopes@),
                i <= envelopes.len(),
                base.builder.next_record_id + es.len() < u64::MAX,
                self@ == base.after_all(es.take(i as int), started),
                views(out@) == base.records(es.take(i as int), ended, started),
            decreases envelopes.len() - i,
        {
            proof {
                lemma_take_succ(es, i as int);
                lemma_numbers(base, es.take(i as int), started);
                assert(es[i as int] == envelopes@[i as int]@);
            }
            match self.take_one(&envelopes[i], ended, started) {
                Some(record) => {
                    out.push(record);
                },
                None => {},
            }
            i += 1;
        }
        proof {
            lemma_take_all(es);
            lemma_only_state(start, base, es, ended, started);
        }
        out
    }

    /// Looks for a state that has run out at `now`.
    pub fn check_timeouts_at(&mut self, now: Timestamp, ended: Timestamp, started: Timestamp) -> (r:
        Option<ActivityRecord>)
        requires
            old(self)@.builder.next_record_id < u64::MAX,
        ensures
            final(self)@ == old(self)@.after_time(now, started),
            view_opt(r) == match old(self)@.timeout_hint(now) {
                Some(h) => old(self)@.builder.emitted(h, ended),
                None => None,
            },
    {
        match self.states.on_tick(now) {
            Some(hint) => self.builder.on_hint_at(&hint, ended, started),
            None => None,
        }
    }

    /// Ends the current record at the given instant.
    pub fn finalize_all_at(&mut self, ended: Timestamp) -> (r: Option<ActivityRecord>)
        ensures
            final(self)@ == (ProcessorView {
                builder: BuilderView { current_record: None, ..old(self)@.builder },
                ..old(self)@
            }),
            view_opt(r) == old(self)@.builder.closed(ended),
    {
        self.builder.finalize_all_at(ended)
    }
}

/// What signals and hints do depends on the state and the open record alone.
proof fn lemma_only_state(
    a: ProcessorView,
    b: ProcessorView,
    es: Seq<EnvelopeView>,
    ended: Timestamp,
    started: Timestamp,
)
    requires
        a.engine == b.engine,
        a.builder == b.builder,
    ensures
        a.after_all(es, started).engine == b.after_all(es, started).engine,
        a.after_all(es, started).builder == b.after_all(es, started).builder,
        a.after_all(es, started).last_focus == a.last_focus,
        a.after_all(es, started).locked == a.locked,
        b.after_all(es, started).last_focus == b.last_focus,
        b.after_all(es, started).locked == b.locked,
        a.records(es, ended, started) == b.records(es, ended, started),
    decreases es.len(),
{
    if es.len() > 0 {
        lemma_only_state(a, b, es.drop_last(), ended, started);
    }
}

proof fn lemma_all_join(
    p: ProcessorView,
    a: Seq<EnvelopeView>,
    b: Seq<EnvelopeView>,
    ended: Timestamp,
    started: Timestamp,
)
    ensures
        p.after_all(a + b, started) == p.after_all(a, started).after_all(b, started),
        p.records(a + b, ended, started) == p.records(a, ended, started) + p.after_all(
            a,
            started,
        ).records(b, ended, started),
    decreases b.len(),
{
    if b.len() == 0 {
        assert(a + b =~= a);
        assert(p.records(a, ended, started) + p.after_all(a, started).records(b, ended, started)
            =~= p.records(a, ended, started));
    } else {
        assert((a + b).drop_last() =~= a + b.drop_last());
        assert((a + b).last() == b.last());
        lemma_all_join(p, a, b.drop_last(), ended, started);
        assert(p.records(a + b, ended, started) =~= p.records(a, ended, started) + p.after_all(
            a,
            started,
        ).records(b, ended, started));
    }
}

/// Where a stream of raw events is cut into batches makes no difference to the records.
pub proof fn law_batches_join(
    p: ProcessorView,
    a: Seq<RawEventView>,
    b: Seq<RawEventView>,
    ended: Timestamp,
    started: Timestamp,
)
    ensures
        p.after_batch(a + b, started) == p.after_batch(a, started).after_batch(b, started),
        p.batch_records(a + b, ended, started) == p.batch_records(a, ended, started)
            + p.after_batch(a, started).batch_records(b, ended, started),
{
    let middle = p.after_batch(a, started);
    let first = adapted(p.last_focus, a);
    let second = adapted(middle.last_focus, b);
    crate::events::adapter::law_batches_join(p.last_focus, a, b);
    crate::events::derive_signal::law_batches_join(p.locked, first, second);
    let ea = p.envelopes(a);
    let eb = middle.envelopes(b);
    assert(p.envelopes(a + b) == ea + eb);
    lemma_all_join(p, ea, eb, ended, started);
    lemma_only_state(p.after_all(ea, started), middle, eb, ended, started);
    lemma_only_state(p, p, ea, ended, started);
    lemma_only_state(p, p, ea + eb, ended, started);
    assert(p.after_batch(a + b, started) =~= middle.after_batch(b, started));
}

proof fn lemma_locked_drops_input(last: Option<FocusView>, raw: Seq<RawEventView>)
    requires
        forall|i: int| 0 <= i < raw.len() ==> !((#[trigger] raw[i]).report is Focus),
    ensures
        derived(true, adapted(last, raw)) == Seq::<EnvelopeView>::empty(),
        locked_after(true, adapted(last, raw)),
        focus_after(last, raw) == last,
    decreases raw.len(),
{
    if raw.len() > 0 {
        let b = raw.drop_last();
        assert(forall|i: int| 0 <= i < b.len() ==> b[i] == raw[i]);
        lemma_locked_drops_input(last, b);
        let one = adapted_one(focus_after(last, b), raw.last());
        assert(!(raw[raw.len() - 1].report is Focus));
        assert(one.len() == 1);
        crate::events::derive_signal::law_batches_join(true, adapted(last, b), one);
        let none = Seq::<EnvelopeView>::empty();
        assert(one.drop_last() =~= none);
        assert(derived(true, none) =~= none);
        assert(locked_after(true, none));
        assert(one.last() == one[0]);
        assert(derived(true, one) =~= derived_one(true, one[0]));
        assert(derived(true, adapted(last, raw)) =~= Seq::empty());
    }
}

/// While the screen is locked, keys and the mouse make no records and change nothing.
pub proof fn law_locked_input_leaves_no_trace(
    p: ProcessorView,
    raw: Seq<RawEventView>,
    ended: Timestamp,
    started: Timestamp,
)
    requires
        p.locked,
        forall|i: int| 0 <= i < raw.len() ==> !((#[trigger] raw[i]).report is Focus),
    ensures
        p.after_batch(raw, started) == p,
        p.batch_records(raw, ended, started) == Seq::<RecordView>::empty(),
{
    lemma_locked_drops_input(p.last_focus, raw);
    assert(p.after_batch(raw, started) =~= p);
}

/// The open record shows the state and the focus of the builder after any signals and hints, where
/// it did before.
pub proof fn law_open_record_shows_processor(
    p: ProcessorView,
    es: Seq<EnvelopeView>,
    started: Timestamp,
)
    requires
        p.builder.record_follows(),
        0 <= p.builder.next_record_id,
        p.builder.next_record_id + es.len() < u64::MAX,
    ensures
        p.after_all(es, started).builder.record_follows(),
    decreases es.len(),
{
    if es.len() > 0 {
        let b = es.drop_last();
        law_open_record_shows_processor(p, b, started);
        lemma_numbers(p, b, started);
        let q = p.after_all(b, started);
        if q.hint(es.last()) is Some {
            crate::records::law_open_record_shows_builder(
                q.builder,
                q.hint(es.last())->0,
                started,
            );
        }
    }
}

/// The parts of a processor agree: the state is locked exactly while the screen is, and the builder
/// is in the state of the engine.
pub open spec fn in_step(p: ProcessorView) -> bool {
    &&& p.engine.locked == (p.engine.current == ActivityState::Locked)
    &&& p.engine.locked == p.locked
    &&& p.builder.current_state == p.engine.current
}

spec fn plain_input(e: EnvelopeView) -> bool {
    &&& e.kind != EventKind::Hint(HintKind::StateChanged)
    &&& e.kind != EventKind::Signal(SignalKind::LockStart)
    &&& e.kind != EventKind::Signal(SignalKind::LockEnd)
}

proof fn lemma_adapted_is_plain(last: Option<FocusView>, raw: Seq<RawEventView>)
    ensures
        forall|i: int| 0 <= i < adapted(last, raw).len() ==> plain_input(
            #[trigger] adapted(last, raw)[i],
        ),
    decreases raw.len(),
{
    if raw.len() > 0 {
        let b = raw.drop_last();
        lemma_adapted_is_plain(last, b);
        let before = adapted(last, b);
        let one = adapted_one(focus_after(last, b), raw.last());
        assert forall|i: int| 0 <= i < adapted(last, raw).len() implies plain_input(
            #[trigger] adapted(last, raw)[i],
        ) by {
            if i < before.len() {
                assert(adapted(last, raw)[i] == before[i]);
            } else {
                assert(adapted(last, raw)[i] == one[i - before.len()]);
            }
        }
    }
}

/// One signal or hint keeps the engine and the builder together.
proof fn lemma_one_in_step(p: ProcessorView, e: EnvelopeView, started: Timestamp)
    requires
        p.engine.locked == (p.engine.current == ActivityState::Locked),
        p.builder.current_state == p.engine.current,
        e.kind != EventKind::Hint(HintKind::StateChanged),
    ensures
        ({
            let q = p.after(e, started);
            &&& q.engine.locked == (q.engine.current == ActivityState::Locked)
            &&& q.builder.current_state == q.engine.current
            &&& e.kind == EventKind::Signal(SignalKind::LockStart) ==> q.engine.locked
            &&& e.kind == EventKind::Signal(SignalKind::LockEnd) ==> !q.engine.locked
            &&& e.kind != EventKind::Signal(SignalKind::LockStart) && e.kind != EventKind::Signal(
                SignalKind::LockEnd,
            ) ==> q.engine.locked == p.engine.locked
        }),
{
    law_changes_are_reported(p.engine, e.kind, e.timestamp);
}

proof fn lemma_all_of_one(p: ProcessorView, e: EnvelopeView, started: Timestamp)
    ensures
        p.after_all(seq![e], started) == p.after(e, started),
{
    assert(seq![e].drop_last() =~= Seq::empty());
    assert(p.after_all(seq![e].drop_last(), started) == p);
}

proof fn lemma_all_of_two(p: ProcessorView, a: EnvelopeView, b: EnvelopeView, started: Timestamp)
    ensures
        p.after_all(seq![a, b], started) == p.after(a, started).after(b, started),
{
    assert(seq![a, b].drop_last() =~= seq![a]);
    lemma_all_of_one(p, a, started);
}

proof fn lemma_input_in_step(
    p: ProcessorView,
    held: bool,
    input: Seq<EnvelopeView>,
    ended: Timestamp,
    started: Timestamp,
)
    requires
        p.engine.locked == (p.engine.current == ActivityState::Locked),
        p.builder.current_state == p.engine.current,
        p.engine.locked == held,
        forall|i: int| 0 <= i < input.len() ==> plain_input(#[trigger] input[i]),
    ensures
        ({
            let q = p.after_all(derived(held, input), started);
            &&& q.engine.locked == (q.engine.current == ActivityState::Locked)
            &&& q.builder.current_state == q.engine.current
            &&& q.engine.locked == locked_after(held, input)
        }),
    decreases input.len(),
{
    if input.len() > 0 {
        let b = input.drop_last();
        let e = input.last();
        assert(forall|i: int| 0 <= i < b.len() ==> b[i] == input[i]);
        assert(plain_input(input[input.len() - 1]));
        lemma_input_in_step(p, held, b, ended, started);
        let was = locked_after(held, b);
        let one = derived_one(was, e);
        lemma_all_join(p, derived(held, b), one, ended, started);
        let q = p.after_all(derived(held, b), started);
        if one.len() == 1 {
            assert(one =~= seq![one[0]]);
            lemma_all_of_one(q, one[0], started);
            lemma_one_in_step(q, one[0], started);
        } else if one.len() == 2 {
            assert(one =~= seq![one[0], one[1]]);
            lemma_all_of_two(q, one[0], one[1], started);
            lemma_one_in_step(q, one[0], started);
            lemma_one_in_step(q.after(one[0], started), one[1], started);
        } else {
            assert(one =~= Seq::empty());
        }
    }
}

/// The parts of a processor agree after every batch and whenever time passes, where they did
/// before: every change of the state reaches the records, and the state is locked exactly while
/// the screen is.
pub proof fn law_processor_stays_in_step(
    p: ProcessorView,
    batch: Seq<RawEventView>,
    now: Timestamp,
    started: Timestamp,
)
    requires
        in_step(p),
    ensures
        in_step(p.after_batch(batch, started)),
        in_step(p.after_time(now, started)),
{
    let input = adapted(p.last_focus, batch);
    lemma_adapted_is_plain(p.last_focus, batch);
    lemma_input_in_step(p, p.locked, input, started, started);
}

/// A key or the mouse makes an unlocked processor active, whatever it was before, and the time of
/// that input is remembered.
pub proof fn law_input_makes_active(p: ProcessorView, e: RawEventView, started: Timestamp)
    requires
        in_step(p),
        !p.locked,
        p.engine.active_grace_secs >= 0,
        !(e.report is Focus),
    ensures
        p.after_batch(seq![e], started).builder.current_state == ActivityState::Active,
        p.after_batch(seq![e], started).engine.last_signal_time == e.timestamp,
        p.after_batch(seq![e], started).builder.current_focus == p.builder.current_focus,
{
    let none = Seq::<RawEventView>::empty();
    assert(none.push(e) =~= seq![e]);
    law_input_adds_its_signal(p.last_focus, none, e);
    let input = adapted(p.last_focus, seq![e]);
    let x = input.last();
    assert(adapted(p.last_focus, none) =~= Seq::empty());
    assert(input =~= seq![x]);
    law_unlocked_passes_everything(input);
    lemma_all_of_one(p, x, started);
    law_changes_are_reported(p.engine, x.kind, x.timestamp);
    law_processor_stays_in_step(p, seq![e], started, started);
}

/// The focus of a record is on the same window as the focus last reported.
pub open spec fn same_window(a: Option<FocusView>, b: Option<FocusView>) -> bool {
    &&& a is Some == b is Some
    &&& a is Some ==> a->0.pid == b->0.pid && a->0.process_start_time == b->0.process_start_time
        && a->0.app_name == b->0.app_name && a->0.window_id == b->0.window_id
}

/// What one signal or hint does to the focus of the records.
proof fn lemma_focus_after_one(p: ProcessorView, e: EnvelopeView, started: Timestamp)
    ensures
        p.after(e, started).builder.current_focus == (if e.kind == EventKind::Hint(
            HintKind::FocusChanged,
        ) && e.payload is Focus {
            Some(e.payload->Focus_0)
        } else if e.kind == EventKind::Hint(HintKind::TitleChanged) && e.payload is Title
            && p.builder.current_focus is Some && p.builder.current_focus->0.window_id
            == e.payload->Title_window_id {
            Some(
                FocusView {
                    window_title: e.payload->Title_title,
                    ..p.builder.current_focus->0
                },
            )
        } else {
            p.builder.current_focus
        }),
{
}

/// What the signals and hints of one focus report do to the focus of the records.
proof fn lemma_focus_after_report(
    p: ProcessorView,
    e: RawEventView,
    ended: Timestamp,
    started: Timestamp,
)
    requires
        same_window(p.last_focus, p.builder.current_focus),
        e.report is Focus,
    ensures
        ({
            let now = e.report->Focus_0;
            let q = p.after_batch(seq![e], started);
            &&& same_window(q.last_focus, q.builder.current_focus)
            &&& (p.last_focus is None || !same_window(p.last_focus, Some(now)))
                ==> q.builder.current_focus == Some(now)
            &&& (p.last_focus is Some && same_window(p.last_focus, Some(now)) && !p.locked
                && p.builder.current_focus->0.window_title == p.last_focus->0.window_title)
                ==> q.builder.current_focus->0.window_title == now.window_title
        }),
{
    let now = e.report->Focus_0;
    let raw = seq![e];
    assert(raw.drop_last() =~= Seq::empty());
    assert(raw.last() == e);
    let none = Seq::<RawEventView>::empty();
    assert(focus_after(p.last_focus, none) == p.last_focus);
    let one = adapted_one(p.last_focus, e);
    assert(adapted(p.last_focus, none) =~= Seq::empty());
    assert(adapted(p.last_focus, raw) =~= one);
    let es = derived(p.locked, one);
    let q = p.after_all(es, started);
    if one.len() == 0 {
        assert(es =~= Seq::empty());
    } else if one.len() == 1 {
        assert(one =~= seq![one[0]]);
        assert(one.drop_last() =~= Seq::empty());
        assert(derived(p.locked, one.drop_last()) =~= Seq::empty());
        assert(es =~= derived_one(p.locked, one[0]));
        if p.locked {
            assert(es =~= Seq::empty());
        } else {
            assert(es =~= seq![one[0]]);
            lemma_all_of_one(p, one[0], started);
            lemma_focus_after_one(p, one[0], started);
        }
    } else {
        assert(one =~= seq![one[0], one[1], one[2]]);
        lemma_focus_after_burst(p, one[0], one[1], one[2], ended, started);
    }
}

/// Whatever comes before and behind it, a hint about the focus reaches the records.
proof fn lemma_focus_after_burst(
    p: ProcessorView,
    a: EnvelopeView,
    b: EnvelopeView,
    c: EnvelopeView,
    ended: Timestamp,
    started: Timestamp,
)
    requires
        b.kind == EventKind::Hint(HintKind::FocusChanged),
        b.payload is Focus,
        c.kind == EventKind::Signal(SignalKind::ActivityPulse),
    ensures
        p.after_all(derived(p.locked, seq![a, b, c]), started).builder.current_focus == Some(
            b.payload->Focus_0,
        ),
{
    let three = seq![a, b, c];
    let two = seq![a, b];
    assert(three.drop_last() =~= two);
    assert(two.drop_last() =~= seq![a]);
    let x = derived(p.locked, seq![a]);
    let y = derived_one(locked_after(p.locked, seq![a]), b);
    let z = derived_one(locked_after(p.locked, two), c);
    assert(y =~= seq![b]);
    assert(derived(p.locked, two) == x + y);
    assert(derived(p.locked, three) == x + y + z);
    lemma_all_join(p, x + y, z, ended, started);
    lemma_all_join(p, x, y, ended, started);
    let p1 = p.after_all(x, started);
    lemma_all_of_one(p1, b, started);
    lemma_focus_after_one(p1, b, started);
    let p2 = p1.after(b, started);
    assert(z.len() <= 1);
    if z.len() == 1 {
        assert(z =~= seq![c]);
        lemma_all_of_one(p2, c, started);
        lemma_focus_after_one(p2, c, started);
    } else {
        assert(z =~= Seq::empty());
    }
}

/// Records know where the focus is: after any batch the focus of the records is on the window last
/// reported, where it was before. A report of another window gives the records exactly that focus;
/// a report of another title reaches them unless the screen is locked.
pub proof fn law_records_know_the_focus(
    p: ProcessorView,
    batch: Seq<RawEventView>,
    ended: Timestamp,
    started: Timestamp,
)
    requires
        same_window(p.last_focus, p.builder.current_focus),
    ensures
        ({
            let q = p.after_batch(batch, started);
            &&& same_window(q.last_focus, q.builder.current_focus)
            &&& q.last_focus == focus_after(p.last_focus, batch)
        }),
        forall|e: RawEventView| #[trigger]
            shows_report(p.after_batch(batch, started), e, started),
    decreases batch.len(),
{
    if batch.len() == 0 {
        assert(adapted(p.last_focus, batch) =~= Seq::empty());
        assert(p.envelopes(batch) =~= Seq::empty());
        assert(p.after_batch(batch, started) =~= p);
    } else {
        let b = batch.drop_last();
        let e = batch.last();
        law_records_know_the_focus(p, b, ended, started);
        let q = p.after_batch(b, started);
        assert(b + seq![e] =~= batch);
        law_batches_join(p, b, seq![e], ended, started);
        if e.report is Focus {
            lemma_focus_after_report(q, e, ended, started);
        } else {
            lemma_focus_after_input(q, e, started);
        }
    }
    let q = p.after_batch(batch, started);
    assert forall|e: RawEventView| #[trigger] shows_report(q, e, started) by {
        if e.report is Focus {
            lemma_focus_after_report(q, e, ended, started);
        }
    }
}

/// A report of another window gives the records that focus, and a report of another title gives
/// them that title unless the screen is locked.
pub open spec fn shows_report(p: ProcessorView, e: RawEventView, started: Timestamp) -> bool {
    e.report is Focus ==> {
        let now = e.report->Focus_0;
        let q = p.after_batch(seq![e], started);
        &&& !same_window(p.last_focus, Some(now)) ==> q.builder.current_focus == Some(now)
        &&& (same_window(p.last_focus, Some(now)) && !p.locked
            && p.builder.current_focus->0.window_title == p.last_focus->0.window_title)
            ==> q.builder.current_focus->0.window_title == now.window_title
    }
}

proof fn lemma_focus_after_input(p: ProcessorView, e: RawEventView, started: Timestamp)
    requires
        !(e.report is Focus),
    ensures
        p.after_batch(seq![e], started).builder.current_focus == p.builder.current_focus,
        p.after_batch(seq![e], started).last_focus == p.last_focus,
{
    let none = Seq::<RawEventView>::empty();
    assert(none.push(e) =~= seq![e]);
    law_input_adds_its_signal(p.last_focus, none, e);
    let input = adapted(p.last_focus, seq![e]);
    let x = input.last();
    assert(adapted(p.last_focus, none) =~= Seq::empty());
    assert(input =~= seq![x]);
    assert(input.drop_last() =~= Seq::empty());
    assert(derived(p.locked, input.drop_last()) =~= Seq::empty());
    let es = derived(p.locked, input);
    assert(es =~= derived_one(p.locked, x));
    if es.len() == 1 {
        assert(es =~= seq![x]);
        lemma_all_of_one(p, x, started);
        lemma_focus_after_one(p, x, started);
    } else {
        assert(es =~= Seq::empty());
    }
}

/// Records come out of a batch in the order of their numbers, without a gap, each ended at the given
/// instant; the open record follows the last of them.
pub proof fn law_batch_records_are_numbered_in_order(
    p: ProcessorView,
    batch: Seq<RawEventView>,
    ended: Timestamp,
    started: Timestamp,
)
    requires
        p.builder.record_follows(),
        p.builder.current_record is Some,
        0 <= p.builder.next_record_id,
        p.builder.next_record_id + ENVELOPES_PER_EVENT * batch.len() < u64::MAX,
    ensures
        ({
            let out = p.batch_records(batch, ended, started);
            let q = p.after_batch(batch, started);
            &&& forall|i: int|
                0 <= i < out.len() ==> (#[trigger] out[i]).record_id
                    == p.builder.current_record->0.record_id + i && out[i].end_time == Some(ended)
            &&& q.builder.current_record is Some
            &&& q.builder.current_record->0.record_id == p.builder.current_record->0.record_id
                + out.len()
            &&& q.builder.current_record->0.end_time is None
        }),
{
    let es = p.envelopes(batch);
    lemma_adapted_len(p.last_focus, batch);
    lemma_derived_len(p.locked, adapted(p.last_focus, batch));
    lemma_records_numbered(p, es, ended, started);
    law_open_record_shows_processor(p, es, started);
}

proof fn lemma_records_numbered(
    p: ProcessorView,
    es: Seq<EnvelopeView>,
    ended: Timestamp,
    started: Timestamp,
)
    requires
        p.builder.record_follows(),
        p.builder.current_record is Some,
        0 <= p.builder.next_record_id,
        p.builder.next_record_id + es.len() < u64::MAX,
    ensures
        ({
            let out = p.records(es, ended, started);
            let q = p.after_all(es, started);
            &&& forall|i: int|
                0 <= i < out.len() ==> (#[trigger] out[i]).record_id
                    == p.builder.current_record->0.record_id + i && out[i].end_time == Some(ended)
            &&& q.builder.current_record is Some
            &&& q.builder.current_record->0.record_id == p.builder.current_record->0.record_id
                + out.len()
        }),
    decreases es.len(),
{
    if es.len() > 0 {
        let b = es.drop_last();
        lemma_records_numbered(p, b, ended, started);
        law_open_record_shows_processor(p, b, started);
        lemma_numbers(p, b, started);
        let q = p.after_all(b, started);
        if q.hint(es.last()) is Some {
            law_records_are_numbered_in_order(q.builder, q.hint(es.last())->0, ended, started);
        }
    }
}

} // verus!
