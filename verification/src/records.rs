//! Stretches of time in one state with one focus, and how they are cut.

use crate::events::model::{
    EnvelopeView, EventEnvelope, EventKind, EventPayload, HintKind, PayloadView,
};
use crate::events::{FocusView, WindowFocusInfo};
use crate::interner::StringInterner;
use crate::time::Timestamp;
use crate::views::view_opt;
use vstd::prelude::*;

verus! {

#[derive(Clone, Copy, Debug, PartialEq, Eq, Hash, Structural)]
pub enum ActivityState {
    Active,
    Passive,
    Inactive,
    Locked,
}

#[derive(Debug)]
pub struct ActivityRecord {
    pub record_id: u64,
    pub run_id: Option<String>,
    pub start_time: Timestamp,
    pub end_time: Option<Timestamp>,
    pub state: ActivityState,
    pub focus_info: Option<WindowFocusInfo>,
    pub event_count: u32,
    pub triggering_events: Vec<u64>,
}

/// A record as a mathematical value.
#[verifier::ext_equal]
pub struct RecordView {
    pub record_id: u64,
    pub run_id: Option<Seq<char>>,
    pub start_time: Timestamp,
    pub end_time: Option<Timestamp>,
    pub state: ActivityState,
    pub focus_info: Option<FocusView>,
    pub event_count: u32,
    pub triggering_events: Seq<u64>,
}

impl View for ActivityRecord {
    type V = RecordView;

    open spec fn view(&self) -> RecordView {
        RecordView {
            record_id: self.record_id,
            run_id: view_opt(self.run_id),
            start_time: self.start_time,
            end_time: self.end_time,
            state: self.state,
            focus_info: view_opt(self.focus_info),
            event_count: self.event_count,
            triggering_events: self.triggering_events@,
        }
    }
}

impl Clone for ActivityRecord {
    fn clone(&self) -> (res: Self)
        ensures
            res@ == self@,
    {
        let triggering_events = self.triggering_events.clone();
        assert(triggering_events@ =~= self.triggering_events@);
        ActivityRecord {
            record_id: self.record_id,
            run_id: self.run_id.clone(),
            start_time: self.start_time,
            end_time: self.end_time,
            state: self.state,
            focus_info: self.focus_info.clone(),
            event_count: self.event_count,
            triggering_events,
        }
    }
}

/// The state of a record builder.
#[verifier::ext_equal]
pub struct BuilderView {
    pub current_state: ActivityState,
    pub current_record: Option<RecordView>,
    pub current_focus: Option<FocusView>,
    pub next_record_id: int,
}

impl BuilderView {
    /// The state and the focus that a hint calls for, if it ends the current record.
    pub open spec fn turn(self, e: EnvelopeView) -> Option<(ActivityState, Option<FocusView>)> {
        match (e.kind, e.payload) {
            (EventKind::Hint(HintKind::FocusChanged), PayloadView::Focus(f)) => Some(
                (self.current_state, Some(f)),
            ),
            (EventKind::Hint(HintKind::StateChanged), PayloadView::State { from: _, to }) => if to
                != self.current_state {
                Some((to, self.current_focus))
            } else {
                None
            },
            (
                EventKind::Hint(HintKind::TitleChanged),
                PayloadView::Title { window_id, title },
            ) => match self.current_focus {
                Some(f) => if f.window_id == window_id {
                    Some((self.current_state, Some(FocusView { window_title: title, ..f })))
                } else {
                    None
                },
                None => None,
            },
            _ => None,
        }
    }

    /// The current record, ended at the given instant.
    pub open spec fn closed(self, ended: Timestamp) -> Option<RecordView> {
        match self.current_record {
            Some(r) => Some(RecordView { end_time: Some(ended), ..r }),
            None => None,
        }
    }

    /// What a hint returns.
    pub open spec fn emitted(self, e: EnvelopeView, ended: Timestamp) -> Option<RecordView> {
        if self.turn(e) is Some {
            self.closed(ended)
        } else {
            None
        }
    }

    /// The builder once a record has been opened.
    pub open spec fn opened(
        self,
        state: ActivityState,
        focus: Option<FocusView>,
        started: Timestamp,
    ) -> BuilderView {
        BuilderView {
            current_state: state,
            current_record: Some(
                RecordView {
                    record_id: self.next_record_id as u64,
                    run_id: None,
                    start_time: started,
                    end_time: None,
                    state,
                    focus_info: focus,
                    event_count: 0,
                    triggering_events: Seq::empty(),
                },
            ),
            current_focus: focus,
            next_record_id: self.next_record_id + 1,
        }
    }

    /// The builder after a hint.
    pub open spec fn after_hint(self, e: EnvelopeView, started: Timestamp) -> BuilderView {
        match self.turn(e) {
            Some((state, focus)) => self.opened(state, focus, started),
            None => self,
        }
    }

    /// The open record is the one numbered last, has not ended, and shows the builder's state
    /// and focus.
    pub open spec fn record_follows(self) -> bool {
        self.current_record matches Some(r) ==> {
            &&& r.record_id == self.next_record_id - 1
            &&& r.end_time is None
            &&& r.state == self.current_state
            &&& r.focus_info == self.current_focus
        }
    }
}

/// Cuts the stream of hints into records: a change of focus, of title or of state ends the
/// current record and starts the next.
pub struct RecordBuilder {
    current_state: ActivityState,
    current_record: Option<ActivityRecord>,
    current_focus: Option<WindowFocusInfo>,
    next_record_id: u64,
    string_interner: StringInterner,
}

impl View for RecordBuilder {
    type V = BuilderView;

    closed spec fn view(&self) -> BuilderView {
        BuilderView {
            current_state: self.current_state,
            current_record: view_opt(self.current_record),
            current_focus: view_opt(self.current_focus),
            next_record_id: self.next_record_id as int,
        }
    }
}

impl RecordBuilder {
    pub fn new(initial_state: ActivityState) -> (r: Self)
        ensures
            r@ == (BuilderView {
                current_state: initial_state,
                current_record: None,
                current_focus: None,
                next_record_id: 0,
            }),
    {
        Self::with_next_record_id(initial_state, 0)
    }

    pub fn with_next_record_id(initial_state: ActivityState, next_record_id: u64) -> (r: Self)
        ensures
            r@ == (BuilderView {
                current_state: initial_state,
                current_record: None,
                current_focus: None,
                next_record_id: next_record_id as int,
            }),
    {
        RecordBuilder {
            current_state: initial_state,
            current_record: None,
            current_focus: None,
            next_record_id,
            string_interner: StringInterner::new(),
        }
    }

    /// Feeds one event to the builder, when the clock read `ended` at the end of the current
    /// record and `started` at the start of the next.
    pub fn on_hint_at(&mut self, env: &EventEnvelope, ended: Timestamp, started: Timestamp) -> (r:
        Option<ActivityRecord>)
        requires
            old(self)@.next_record_id < u64::MAX,
        ensures
            final(self)@ == old(self)@.after_hint(env@, started),
            view_opt(r) == old(self)@.emitted(env@, ended),
    {
        match (&env.kind, &env.payload) {
            (EventKind::Hint(HintKind::FocusChanged), EventPayload::Focus(f)) => {
                self.apply_focus_change(f.clone(), ended, started)
            },
            (EventKind::Hint(HintKind::StateChanged), EventPayload::State { from: _, to }) => {
                self.transition_to(*to, ended, started)
            },
            (EventKind::Hint(HintKind::TitleChanged), EventPayload::Title { window_id, title }) => {
                self.apply_title_change(*window_id, title, ended, started)
            },
            _ => None,
        }
    }

    /// Feeds one event to the builder.
    pub fn on_hint(&mut self, env: &EventEnvelope) -> (r: Option<ActivityRecord>)
        requires
            old(self)@.next_record_id < u64::MAX,
        ensures
            exists|ended: Timestamp, started: Timestamp|
                #![trigger old(self)@.emitted(env@, ended), old(self)@.after_hint(env@, started)]
                final(self)@ == old(self)@.after_hint(env@, started) && view_opt(r) == old(
                    self,
                )@.emitted(env@, ended),
    {
        let ended = Timestamp::now();
        let started = Timestamp::now();
        self.on_hint_at(env, ended, started)
    }

    /// Ends the current record at the given instant.
    pub fn finalize_all_at(&mut self, ended: Timestamp) -> (r: Option<ActivityRecord>)
        ensures
            final(self)@ == (BuilderView { current_record: None, ..old(self)@ }),
            view_opt(r) == old(self)@.closed(ended),
    {
        self.finalize_current(ended)
    }

    /// Ends the current record.
    pub fn finalize_all(&mut self) -> (r: Option<ActivityRecord>)
        ensures
            final(self)@ == (BuilderView { current_record: None, ..old(self)@ }),
            exists|ended: Timestamp| view_opt(r) == #[trigger] old(self)@.closed(ended),
    {
        let ended = Timestamp::now();
        self.finalize_all_at(ended)
    }

    fn apply_focus_change(
        &mut self,
        focus_info: WindowFocusInfo,
        ended: Timestamp,
        started: Timestamp,
    ) -> (r: Option<ActivityRecord>)
        requires
            old(self)@.next_record_id < u64::MAX,
        ensures
            final(self)@ == old(self)@.opened(
                old(self)@.current_state,
                Some(focus_info@),
                started,
            ),
            view_opt(r) == old(self)@.closed(ended),
    {
        self.current_focus = Some(focus_info);
        let completed = self.finalize_current(ended);
        self.start_new_current(started);
        completed
    }

    fn apply_title_change(
        &mut self,
        window_id: u32,
        new_title: &str,
        ended: Timestamp,
        started: Timestamp,
    ) -> (r: Option<ActivityRecord>)
        requires
            old(self)@.next_record_id < u64::MAX,
        ensures
            match old(self)@.current_focus {
                Some(f) if f.window_id == window_id => {
                    &&& final(self)@ == old(self)@.opened(
                        old(self)@.current_state,
                        Some(FocusView { window_title: new_title@, ..f }),
                        started,
                    )
                    &&& view_opt(r) == old(self)@.closed(ended)
                },
                _ => final(self)@ == old(self)@ && r is None,
            },
    {
        let should_update = match &self.current_focus {
            Some(cf) => cf.window_id == window_id,
            None => false,
        };
        if should_update {
            let completed = self.finalize_current(ended);
            let title = self.string_interner.intern(new_title);
            match self.current_focus.take() {
                Some(mut cf) => {
                    cf.window_title = title;
                    self.current_focus = Some(cf);
                },
                None => {},
            }
            self.start_new_current(started);
            return completed;
        }
        None
    }

    fn start_new_current(&mut self, started: Timestamp)
        requires
            old(self)@.next_record_id < u64::MAX,
        ensures
            final(self)@ == old(self)@.opened(
                old(self)@.current_state,
                old(self)@.current_focus,
                started,
            ),
    {
        self.current_record = Some(
            ActivityRecord {
                record_id: self.next_record_id,
                run_id: None,
                start_time: started,
                end_time: None,
                state: self.current_state,
                focus_info: self.current_focus.clone(),
                event_count: 0,
                triggering_events: Vec::new(),
            },
        );
        self.next_record_id = self.next_record_id + 1;
    }

    fn finalize_current(&mut self, ended: Timestamp) -> (r: Option<ActivityRecord>)
        ensures
            final(self)@ == (BuilderView { current_record: None, ..old(self)@ }),
            view_opt(r) == old(self)@.closed(ended),
    {
        match self.current_record.take() {
            Some(rec) => {
                let mut rec = rec;
                rec.end_time = Some(ended);
                Some(rec)
            },
            None => None,
        }
    }

    fn transition_to(&mut self, to: ActivityState, ended: Timestamp, started: Timestamp) -> (r:
        Option<ActivityRecord>)
        requires
            old(self)@.next_record_id < u64::MAX,
        ensures
            if to != old(self)@.current_state {
                &&& final(self)@ == old(self)@.opened(to, old(self)@.current_focus, started)
                &&& view_opt(r) == old(self)@.closed(ended)
            } else {
                &&& final(self)@ == old(self)@
                &&& r is None
            },
    {
        if self.current_state != to {
            let completed = self.finalize_current(ended);
            self.current_state = to;
            self.start_new_current(started);
            completed
        } else {
            None
        }
    }

    /// The number of the next record.
    pub fn next_record_id(&self) -> (r: u64)
        ensures
            r == self@.next_record_id,
    {
        self.next_record_id
    }

    pub fn current_state(&self) -> (r: ActivityState)
        ensures
            r == self@.current_state,
    {
        self.current_state
    }

    pub fn current_focus(&self) -> (r: Option<WindowFocusInfo>)
        ensures
            view_opt(r) == self@.current_focus,
    {
        self.current_focus.clone()
    }
}

/// At every moment the open record is the one numbered last and shows the state and the focus of
/// the builder.
pub proof fn law_open_record_shows_builder(b: BuilderView, e: EnvelopeView, started: Timestamp)
    requires
        b.record_follows(),
        0 <= b.next_record_id < u64::MAX,
    ensures
        b.after_hint(e, started).record_follows(),
{
}

/// Records come out in the order of their numbers, without a gap: a record that a hint returns
/// is numbered just below the one that the hint opens.
pub proof fn law_records_are_numbered_in_order(
    b: BuilderView,
    e: EnvelopeView,
    ended: Timestamp,
    started: Timestamp,
)
    requires
        b.record_follows(),
        0 <= b.next_record_id < u64::MAX,
    ensures
        b.emitted(e, ended) matches Some(r) ==> b.after_hint(e, started).current_record matches Some(
            next,
        ) && next.record_id == r.record_id + 1 && r.end_time == Some(ended) && next.start_time
            == started,
{
}

/// Signals, and hints that change nothing, leave the builder alone.
pub proof fn law_signals_cut_no_record(b: BuilderView, e: EnvelopeView, at: Timestamp)
    requires
        e.kind is Signal,
    ensures
        b.after_hint(e, at) == b,
        b.emitted(e, at) is None,
{
}

/// The event is a hint that the focus is now at `f`.
pub open spec fn tells_focus(e: EnvelopeView, f: FocusView) -> bool {
    e.kind == EventKind::Hint(HintKind::FocusChanged) && e.payload == PayloadView::Focus(f)
}

/// The event is a hint that the state is now `to`.
pub open spec fn tells_state(e: EnvelopeView, to: ActivityState) -> bool {
    e.kind == EventKind::Hint(HintKind::StateChanged) && e.payload is State && e.payload->State_to
        == to
}

/// The event is a hint that the window `id` now has the title `title`.
pub open spec fn tells_title(e: EnvelopeView, id: u32, title: Seq<char>) -> bool {
    e.kind == EventKind::Hint(HintKind::TitleChanged) && e.payload == (PayloadView::Title {
        window_id: id,
        title,
    })
}

/// There is an open record with the given state, focus and start.
pub open spec fn shows_open(
    record: Option<RecordView>,
    state: ActivityState,
    focus: Option<FocusView>,
    started: Timestamp,
) -> bool {
    &&& record is Some
    &&& record->0.state == state
    &&& record->0.focus_info == focus
    &&& record->0.start_time == started
    &&& record->0.end_time is None
}

/// A hint about the state sets the state and keeps the focus. Where it names another state, the
/// record that it opens has the new state and still the focus; where it names the same, nothing
/// is cut.
pub proof fn law_state_hint_keeps_the_focus(
    b: BuilderView,
    e: EnvelopeView,
    to: ActivityState,
    ended: Timestamp,
    started: Timestamp,
)
    requires
        tells_state(e, to),
        0 <= b.next_record_id < u64::MAX,
    ensures
        b.after_hint(e, started).current_focus == b.current_focus,
        b.after_hint(e, started).current_state == to,
        to != b.current_state ==> shows_open(
            b.after_hint(e, started).current_record,
            to,
            b.current_focus,
            started,
        ),
        to == b.current_state ==> b.after_hint(e, started) == b && b.emitted(e, ended) is None,
{
}

/// A hint about the focus sets the focus and keeps the state, and always opens a record, even
/// where the focus was the same before.
pub proof fn law_focus_hint_keeps_the_state(
    b: BuilderView,
    e: EnvelopeView,
    f: FocusView,
    started: Timestamp,
)
    requires
        tells_focus(e, f),
        0 <= b.next_record_id < u64::MAX,
    ensures
        b.after_hint(e, started).current_focus == Some(f),
        b.after_hint(e, started).current_state == b.current_state,
        shows_open(b.after_hint(e, started).current_record, b.current_state, Some(f), started),
{
}

/// A hint about a title changes the title of the focus, and nothing else of it, where the window
/// has the focus, and then opens a record; about any other window it changes nothing.
pub proof fn law_title_hint_renames_the_window(
    b: BuilderView,
    e: EnvelopeView,
    id: u32,
    title: Seq<char>,
    ended: Timestamp,
    started: Timestamp,
)
    requires
        tells_title(e, id, title),
        0 <= b.next_record_id < u64::MAX,
    ensures
        b.after_hint(e, started).current_state == b.current_state,
        (b.current_focus is Some && b.current_focus->0.window_id == id) ==> {
            let renamed = FocusView { window_title: title, ..b.current_focus->0 };
            &&& b.after_hint(e, started).current_focus == Some(renamed)
            &&& shows_open(
                b.after_hint(e, started).current_record,
                b.current_state,
                Some(renamed),
                started,
            )
        },
        !(b.current_focus is Some && b.current_focus->0.window_id == id) ==> b.after_hint(e, started) == b
            && b.emitted(e, ended) is None,
{
}

/// Any other event leaves the builder alone.
pub proof fn law_other_events_cut_no_record(b: BuilderView, e: EnvelopeView, at: Timestamp)
    requires
        forall|f: FocusView| !tells_focus(e, f),
        forall|to: ActivityState| !tells_state(e, to),
        forall|id: u32, title: Seq<char>| !tells_title(e, id, title),
    ensures
        b.after_hint(e, at) == b,
        b.emitted(e, at) is None,
{
    match e.payload {
        PayloadView::Focus(f) => {
            assert(!tells_focus(e, f));
        },
        PayloadView::State { from: _, to } => {
            assert(!tells_state(e, to));
        },
        PayloadView::Title { window_id, title } => {
            assert(!tells_title(e, window_id, title));
        },
        _ => {},
    }
}

/// Nothing is lost and nothing is changed in hindsight: a hint either returns the record that was
/// open, ended at the given instant and otherwise as it was, and opens the next one, numbered one
/// higher than the last and empty; or it leaves the open record as it is. Where none was open, one
/// is opened and none returned.
pub proof fn law_records_follow_each_other(
    b: BuilderView,
    e: EnvelopeView,
    ended: Timestamp,
    started: Timestamp,
)
    requires
        0 <= b.next_record_id < u64::MAX,
    ensures
        ({
            let after = b.after_hint(e, started);
            ||| after == b && b.emitted(e, ended) is None
            ||| {
                &&& match (b.current_record, b.emitted(e, ended)) {
                    (Some(open), Some(done)) => done == (RecordView {
                        end_time: Some(ended),
                        ..open
                    }),
                    (None, None) => true,
                    _ => false,
                }
                &&& after.next_record_id == b.next_record_id + 1
                &&& after.current_record == Some(
                    RecordView {
                        record_id: b.next_record_id as u64,
                        run_id: None,
                        start_time: started,
                        end_time: None,
                        state: after.current_state,
                        focus_info: after.current_focus,
                        event_count: 0,
                        triggering_events: Seq::empty(),
                    },
                )
            }
        }),
{
}

/// The record that a builder ends last is the one that is open, otherwise as it was.
pub proof fn law_last_record_is_the_open_one(b: BuilderView, ended: Timestamp)
    ensures
        b.closed(ended) is Some <==> b.current_record is Some,
        b.current_record matches Some(open) ==> b.closed(ended) == Some(
            RecordView { end_time: Some(ended), ..open },
        ),
{
}

/// The builder after several events, each of which opens its record at an instant of its own.
pub open spec fn after_hints(
    b: BuilderView,
    es: Seq<EnvelopeView>,
    starts: Seq<Timestamp>,
) -> BuilderView
    decreases es.len(),
{
    if es.len() == 0 {
        b
    } else {
        after_hints(b, es.drop_last(), starts).after_hint(es.last(), starts[es.len() - 1])
    }
}

/// After any events the state is the one named last, or the first where none was named.
pub proof fn law_state_is_the_last_told(
    b: BuilderView,
    es: Seq<EnvelopeView>,
    starts: Seq<Timestamp>,
    k: int,
    to: ActivityState,
)
    requires
        -1 <= k < es.len(),
        k >= 0 ==> tells_state(es[k], to),
        k < 0 ==> to == b.current_state,
        forall|i: int, s: ActivityState| k < i < es.len() ==> !#[trigger] tells_state(es[i], s),
    ensures
        after_hints(b, es, starts).current_state == to,
    decreases es.len(),
{
    if es.len() > 0 && k < es.len() - 1 {
        let rest = es.drop_last();
        assert(forall|i: int| 0 <= i < rest.len() ==> rest[i] == es[i]);
        law_state_is_the_last_told(b, rest, starts, k, to);
        if let PayloadView::State { from: _, to: s } = es.last().payload {
            assert(!tells_state(es[es.len() - 1], s));
        }
    }
}

/// After any events the focus is the one told last, with the title told last for its window since
/// then; no other event touches it, and no change of state does.
pub proof fn law_focus_is_the_last_told(
    b: BuilderView,
    es: Seq<EnvelopeView>,
    starts: Seq<Timestamp>,
    k: int,
    f: FocusView,
    t: int,
    title: Seq<char>,
)
    requires
        -1 <= k < es.len(),
        k >= 0 ==> tells_focus(es[k], f),
        k < 0 ==> b.current_focus == Some(f),
        forall|i: int, g: FocusView| k < i < es.len() ==> !#[trigger] tells_focus(es[i], g),
        k <= t < es.len(),
        t == k ==> title == f.window_title,
        t > k ==> tells_title(es[t], f.window_id, title),
        forall|i: int, s: Seq<char>|
            t < i < es.len() ==> !#[trigger] tells_title(es[i], f.window_id, s),
    ensures
        after_hints(b, es, starts).current_focus == Some(FocusView { window_title: title, ..f }),
    decreases es.len(),
{
    let named = FocusView { window_title: title, ..f };
    assert(t == k ==> named =~= f);
    if es.len() > 0 && k < es.len() - 1 {
        let n = es.len() - 1;
        let rest = es.drop_last();
        assert(forall|i: int| 0 <= i < rest.len() ==> rest[i] == es[i]);
        if let PayloadView::Focus(g) = es.last().payload {
            assert(!tells_focus(es[n], g));
        }
        if t < n {
            law_focus_is_the_last_told(b, rest, starts, k, f, t, title);
            if let PayloadView::Title { window_id: _, title: s } = es.last().payload {
                assert(!tells_title(es[n], f.window_id, s));
            }
        } else {
            lemma_focus_keeps_its_window(b, rest, starts, k, f);
        }
    }
}

proof fn lemma_focus_keeps_its_window(
    b: BuilderView,
    es: Seq<EnvelopeView>,
    starts: Seq<Timestamp>,
    k: int,
    f: FocusView,
)
    requires
        -1 <= k < es.len(),
        k >= 0 ==> tells_focus(es[k], f),
        k < 0 ==> b.current_focus == Some(f),
        forall|i: int, g: FocusView| k < i < es.len() ==> !#[trigger] tells_focus(es[i], g),
    ensures
        after_hints(b, es, starts).current_focus is Some,
        f == (FocusView {
            window_title: f.window_title,
            ..after_hints(b, es, starts).current_focus->0
        }),
    decreases es.len(),
{
    if es.len() > 0 && k < es.len() - 1 {
        let rest = es.drop_last();
        assert(forall|i: int| 0 <= i < rest.len() ==> rest[i] == es[i]);
        lemma_focus_keeps_its_window(b, rest, starts, k, f);
        if let PayloadView::Focus(g) = es.last().payload {
            assert(!tells_focus(es[es.len() - 1], g));
        }
    }
}

/// Without a focus to start from, events tell none until one of them is a hint about the focus.
pub proof fn law_no_focus_until_told(
    b: BuilderView,
    es: Seq<EnvelopeView>,
    starts: Seq<Timestamp>,
)
    requires
        b.current_focus is None,
        forall|i: int, g: FocusView| 0 <= i < es.len() ==> !#[trigger] tells_focus(es[i], g),
    ensures
        after_hints(b, es, starts).current_focus is None,
    decreases es.len(),
{
    if es.len() > 0 {
        let rest = es.drop_last();
        assert(forall|i: int| 0 <= i < rest.len() ==> rest[i] == es[i]);
        law_no_focus_until_told(b, rest, starts);
        if let PayloadView::Focus(g) = es.last().payload {
            assert(!tells_focus(es[es.len() - 1], g));
        }
    }
}

} // verus!
