//! Turns raw events into signals and hints.

use crate::events::model::{
    EnvelopeView, EventEnvelope, EventKind, EventPayload, EventSource, HintKind, PayloadView,
    SignalKind,
};
use crate::events::{FocusView, RawEvent, RawEventView, Report, WindowFocusInfo};
use crate::time::Timestamp;
use crate::views::{
    group_views, lemma_take_all, lemma_take_succ, lemma_views_push, view_opt, views,
};
use vstd::prelude::*;

verus! {

/// How a focus report differs from the one before it.
pub enum FocusChange {
    App,
    Window,
    Title,
    Nothing,
}

/// The first report counts as a change of application; a process is told by its number, its
/// start and its name.
pub open spec fn focus_change(last: Option<FocusView>, current: FocusView) -> FocusChange {
    match last {
        None => FocusChange::App,
        Some(l) => if l.pid != current.pid || l.process_start_time != current.process_start_time
            || l.app_name != current.app_name {
            FocusChange::App
        } else if l.window_id != current.window_id {
            FocusChange::Window
        } else if l.window_title != current.window_title {
            FocusChange::Title
        } else {
            FocusChange::Nothing
        },
    }
}

/// An envelope straight from a hook.
pub open spec fn from_hook(
    id: u64,
    timestamp: Timestamp,
    kind: EventKind,
    payload: PayloadView,
) -> EnvelopeView {
    EnvelopeView {
        id,
        timestamp,
        source: EventSource::Hook,
        kind,
        payload,
        derived: false,
        polling: false,
        sensitive: false,
    }
}

/// What a change of application or window gives: the signal itself, a hint and a pulse.
pub open spec fn focus_burst(
    id: u64,
    timestamp: Timestamp,
    signal: SignalKind,
    info: FocusView,
) -> Seq<EnvelopeView> {
    seq![
        from_hook(id, timestamp, EventKind::Signal(signal), PayloadView::Focus(info)),
        from_hook(id, timestamp, EventKind::Hint(HintKind::FocusChanged), PayloadView::Focus(info)),
        from_hook(
            id,
            timestamp,
            EventKind::Signal(SignalKind::ActivityPulse),
            PayloadView::Empty,
        ),
    ]
}

/// What one raw event gives, when `last` was the focus before it.
pub open spec fn adapted_one(last: Option<FocusView>, e: RawEventView) -> Seq<EnvelopeView> {
    match e.report {
        Report::Keyboard(data) => seq![
            from_hook(
                e.event_id,
                e.timestamp,
                EventKind::Signal(SignalKind::KeyboardInput),
                PayloadView::Keyboard(data),
            ),
        ],
        Report::Mouse(data) => seq![
            from_hook(
                e.event_id,
                e.timestamp,
                EventKind::Signal(SignalKind::MouseInput),
                PayloadView::Mouse(data),
            ),
        ],
        Report::Focus(info) => match focus_change(last, info) {
            FocusChange::App => focus_burst(e.event_id, e.timestamp, SignalKind::AppChanged, info),
            FocusChange::Window => focus_burst(
                e.event_id,
                e.timestamp,
                SignalKind::WindowChanged,
                info,
            ),
            FocusChange::Title => seq![
                EnvelopeView {
                    id: e.event_id,
                    timestamp: e.timestamp,
                    source: EventSource::Polling,
                    kind: EventKind::Hint(HintKind::TitleChanged),
                    payload: PayloadView::Title {
                        window_id: info.window_id,
                        title: info.window_title,
                    },
                    derived: false,
                    polling: true,
                    sensitive: false,
                },
            ],
            FocusChange::Nothing => Seq::empty(),
        },
    }
}

/// The focus after `raw`: that of the last focus report, or `last` where there is none.
pub open spec fn focus_after(last: Option<FocusView>, raw: Seq<RawEventView>) -> Option<FocusView>
    decreases raw.len(),
{
    if raw.len() == 0 {
        last
    } else {
        match raw.last().report {
            Report::Focus(info) => Some(info),
            _ => focus_after(last, raw.drop_last()),
        }
    }
}

/// What a batch gives: what each of its events gives, in order.
pub open spec fn adapted(last: Option<FocusView>, raw: Seq<RawEventView>) -> Seq<EnvelopeView>
    decreases raw.len(),
{
    if raw.len() == 0 {
        Seq::empty()
    } else {
        adapted(last, raw.drop_last()) + adapted_one(
            focus_after(last, raw.drop_last()),
            raw.last(),
        )
    }
}

/// Remembers the focus last reported, to tell what changed.
pub struct EventAdapter {
    last_focus: Option<WindowFocusInfo>,
}

fn hook_envelope(id: u64, timestamp: Timestamp, kind: EventKind, payload: EventPayload) -> (r:
    EventEnvelope)
    ensures
        r@ == from_hook(id, timestamp, kind, payload@),
{
    EventEnvelope {
        id,
        timestamp,
        source: EventSource::Hook,
        kind,
        payload,
        derived: false,
        polling: false,
        sensitive: false,
    }
}

fn push_focus_burst(
    out: &mut Vec<EventEnvelope>,
    id: u64,
    timestamp: Timestamp,
    signal: SignalKind,
    info: &WindowFocusInfo,
)
    ensures
        views(final(out)@) == views(old(out)@) + focus_burst(id, timestamp, signal, info@),
{
    broadcast use lemma_views_push;

    out.push(
        hook_envelope(id, timestamp, EventKind::Signal(signal), EventPayload::Focus(info.clone())),
    );
    out.push(
        hook_envelope(
            id,
            timestamp,
            EventKind::Hint(HintKind::FocusChanged),
            EventPayload::Focus(info.clone()),
        ),
    );
    out.push(
        hook_envelope(
            id,
            timestamp,
            EventKind::Signal(SignalKind::ActivityPulse),
            EventPayload::Empty,
        ),
    );
    assert(views(out@) =~= views(old(out)@) + focus_burst(id, timestamp, signal, info@));
}

impl EventAdapter {
    /// The focus last reported.
    pub closed spec fn last_focus(&self) -> Option<FocusView> {
        view_opt(self.last_focus)
    }

    pub fn new() -> (r: Self)
        ensures
            r.last_focus() is None,
    {
        EventAdapter { last_focus: None }
    }

    fn adapt_focus(
        &mut self,
        out: &mut Vec<EventEnvelope>,
        timestamp: Timestamp,
        event_id: u64,
        current: &WindowFocusInfo,
    )
        ensures
            final(self).last_focus() == Some(current@),
            views(final(out)@) == views(old(out)@) + adapted_one(
                old(self).last_focus(),
                (RawEventView { timestamp, event_id, report: Report::Focus(current@) }),
            ),
    {
        let ghost e = RawEventView { timestamp, event_id, report: Report::Focus(current@) };
        let ghost before = views(out@);
        match &self.last_focus {
            Some(last) => {
                if last.pid != current.pid || last.process_start_time != current.process_start_time
                    || *last.app_name != *current.app_name {
                    push_focus_burst(out, event_id, timestamp, SignalKind::AppChanged, current);
                } else if last.window_id != current.window_id {
                    push_focus_burst(out, event_id, timestamp, SignalKind::WindowChanged, current);
                } else if *last.window_title != *current.window_title {
                    out.push(
                        EventEnvelope {
                            id: event_id,
                            timestamp,
                            source: EventSource::Polling,
                            kind: EventKind::Hint(HintKind::TitleChanged),
                            payload: EventPayload::Title {
                                window_id: current.window_id,
                                title: (*current.window_title).clone(),
                            },
                            derived: false,
                            polling: true,
                            sensitive: false,
                        },
                    );
                    assert(views(out@) =~= before + adapted_one(old(self).last_focus(), e));
                } else {
                    assert(views(out@) =~= before + adapted_one(old(self).last_focus(), e));
                }
            },
            None => {
                push_focus_burst(out, event_id, timestamp, SignalKind::AppChanged, current);
            },
        }
        self.last_focus = Some(current.clone());
    }

    /// Turns a batch of raw events into envelopes.
    pub fn adapt_batch(&mut self, raw: &Vec<RawEvent>) -> (out: Vec<EventEnvelope>)
        ensures
            views(out@) == adapted(old(self).last_focus(), views(raw@)),
            final(self).last_focus() == focus_after(old(self).last_focus(), views(raw@)),
    {
        broadcast use group_views;

        let ghost start = self.last_focus();
        let ghost all = views(raw@);
        let mut out: Vec<EventEnvelope> = Vec::new();
        let mut i: usize = 0;
        while i < raw.len()
            invariant
                i <= raw.len(),
                all == views(raw@),
                views(out@) == adapted(start, all.take(i as int)),
                self.last_focus() == focus_after(start, all.take(i as int)),
            decreases raw.len() - i,
        {
            proof {
                lemma_take_succ(all, i as int);
            }
            let ghost before = views(out@);
            match &raw[i] {
                RawEvent::KeyboardInput { timestamp, event_id, data } => {
                    out.push(
                        hook_envelope(
                            *event_id,
                            *timestamp,
                            EventKind::Signal(SignalKind::KeyboardInput),
                            EventPayload::Keyboard(data.clone()),
                        ),
                    );
                    assert(views(out@) =~= before + adapted_one(self.last_focus(), all[i as int]));
                },
                RawEvent::MouseInput { timestamp, event_id, data } => {
                    out.push(
                        hook_envelope(
                            *event_id,
                            *timestamp,
                            EventKind::Signal(SignalKind::MouseInput),
                            EventPayload::Mouse(*data),
                        ),
                    );
                    assert(views(out@) =~= before + adapted_one(self.last_focus(), all[i as int]));
                },
                RawEvent::WindowFocusChange { timestamp, event_id, focus_info } => {
                    self.adapt_focus(&mut out, *timestamp, *event_id, focus_info);
                },
            }
            i += 1;
        }
        proof {
            lemma_take_all(all);
        }
        out
    }
}

/// Where a stream of events is cut into batches makes no difference.
pub proof fn law_batches_join(last: Option<FocusView>, a: Seq<RawEventView>, b: Seq<RawEventView>)
    ensures
        adapted(last, a + b) == adapted(last, a) + adapted(focus_after(last, a), b),
        focus_after(last, a + b) == focus_after(focus_after(last, a), b),
    decreases b.len(),
{
    if b.len() == 0 {
        assert(a + b =~= a);
        assert(adapted(last, a) + adapted(focus_after(last, a), b) =~= adapted(last, a));
    } else {
        assert((a + b).drop_last() =~= a + b.drop_last());
        assert((a + b).last() == b.last());
        law_batches_join(last, a, b.drop_last());
        assert(adapted(last, a + b) =~= adapted(last, a) + adapted(focus_after(last, a), b));
    }
}

/// Reporting the same focus again, at whatever time, gives nothing and changes nothing.
pub proof fn law_repeated_focus_is_silent(
    last: Option<FocusView>,
    first: RawEventView,
    again: RawEventView,
)
    requires
        first.report is Focus,
        again.report == first.report,
    ensures
        adapted(last, seq![first, again]) == adapted(last, seq![first]),
        focus_after(last, seq![first, again]) == focus_after(last, seq![first]),
{
    let two = seq![first, again];
    assert(two.drop_last() =~= seq![first]);
    assert(adapted(last, two) =~= adapted(last, seq![first]));
}

/// Every envelope carries the number and the time of a raw event of the batch, is not derived,
/// and is a polled title hint or comes from the hook.
pub proof fn law_envelopes_come_from_batch(last: Option<FocusView>, raw: Seq<RawEventView>, i: int)
    requires
        0 <= i < adapted(last, raw).len(),
    ensures
        exists|j: int|
            0 <= j < raw.len() && #[trigger] raw[j].event_id == adapted(last, raw)[i].id
                && raw[j].timestamp == adapted(last, raw)[i].timestamp,
        !adapted(last, raw)[i].derived,
        adapted(last, raw)[i].polling == (adapted(last, raw)[i].kind == EventKind::Hint(
            HintKind::TitleChanged,
        )),
        adapted(last, raw)[i].source == if adapted(last, raw)[i].polling {
            EventSource::Polling
        } else {
            EventSource::Hook
        },
    decreases raw.len(),
{
    let shorter = adapted(last, raw.drop_last());
    if i < shorter.len() {
        law_envelopes_come_from_batch(last, raw.drop_last(), i);
        let j = choose|j: int|
            0 <= j < raw.drop_last().len() && #[trigger] raw.drop_last()[j].event_id
                == shorter[i].id && raw.drop_last()[j].timestamp == shorter[i].timestamp;
        assert(raw[j].event_id == adapted(last, raw)[i].id);
    } else {
        let one = adapted_one(focus_after(last, raw.drop_last()), raw.last());
        assert(adapted(last, raw)[i] == one[i - shorter.len()]);
        assert(raw[raw.len() - 1].event_id == adapted(last, raw)[i].id);
    }
}

/// The envelope comes from the hook and carries the number and the time of the raw event, the
/// given kind and the given payload.
pub open spec fn carries(
    out: EnvelopeView,
    e: RawEventView,
    kind: EventKind,
    payload: PayloadView,
) -> bool {
    &&& out.id == e.event_id
    &&& out.timestamp == e.timestamp
    &&& out.kind == kind
    &&& out.payload == payload
    &&& out.source == EventSource::Hook
    &&& !out.derived && !out.polling && !out.sensitive
}

/// The raw event is a key or a movement, click or turn of the mouse.
pub open spec fn is_input() -> spec_fn(RawEventView) -> bool {
    |e: RawEventView| e.report is Keyboard || e.report is Mouse
}

/// The envelope is a signal of a key or of the mouse.
pub open spec fn is_input_signal() -> spec_fn(EnvelopeView) -> bool {
    |e: EnvelopeView|
        e.kind == EventKind::Signal(SignalKind::KeyboardInput) || e.kind == EventKind::Signal(
            SignalKind::MouseInput,
        )
}

/// The envelope is the signal of the raw input, with its number, its time and its data.
pub open spec fn signals_input(out: EnvelopeView, e: RawEventView) -> bool {
    match e.report {
        Report::Keyboard(data) => carries(
            out,
            e,
            EventKind::Signal(SignalKind::KeyboardInput),
            PayloadView::Keyboard(data),
        ),
        Report::Mouse(data) => carries(
            out,
            e,
            EventKind::Signal(SignalKind::MouseInput),
            PayloadView::Mouse(data),
        ),
        Report::Focus(_) => false,
    }
}

/// No input is lost and none is made up: each key and each mouse event of a batch, of whatever
/// type, gives exactly one signal, with its number, its time and its data, in the same order.
pub proof fn law_no_input_is_lost(last: Option<FocusView>, raw: Seq<RawEventView>)
    ensures
        ({
            let given = raw.filter(is_input());
            let signals = adapted(last, raw).filter(is_input_signal());
            &&& signals.len() == given.len()
            &&& forall|i: int|
                0 <= i < given.len() ==> signals_input(#[trigger] signals[i], given[i])
        }),
    decreases raw.len(),
{
    reveal(Seq::filter);
    if raw.len() > 0 {
        let b = raw.drop_last();
        let e = raw.last();
        law_no_input_is_lost(last, b);
        let one = adapted_one(focus_after(last, b), e);
        let before = adapted(last, b);
        Seq::filter_distributes_over_add(before, one, is_input_signal());
        let given = raw.filter(is_input());
        let signals = adapted(last, raw).filter(is_input_signal());
        let earlier = b.filter(is_input());
        if e.report is Focus {
            assert forall|i: int| 0 <= i < one.len() implies !is_input_signal()(
                #[trigger] one[i],
            ) by {}
            assert(one.all(|x: EnvelopeView| !is_input_signal()(x)));
            one.lemma_all_neg_filter_empty(is_input_signal());
            assert(signals =~= before.filter(is_input_signal()));
            assert(given == earlier);
        } else {
            assert(one.len() == 1 && is_input_signal()(one[0]));
            assert(one.drop_last() =~= Seq::empty());
            assert(one.filter(is_input_signal()) =~= one);
            assert(signals =~= before.filter(is_input_signal()) + one);
            assert(given == earlier.push(e));
        }
    }
}

/// The focus last reported is that of the last focus report, whatever input came after it.
pub proof fn law_focus_is_the_last_reported(
    last: Option<FocusView>,
    raw: Seq<RawEventView>,
    k: int,
)
    requires
        -1 <= k < raw.len(),
        k >= 0 ==> raw[k].report is Focus,
        forall|i: int| k < i < raw.len() ==> !((#[trigger] raw[i]).report is Focus),
    ensures
        focus_after(last, raw) == if k >= 0 {
            Some(raw[k].report->Focus_0)
        } else {
            last
        },
    decreases raw.len(),
{
    if raw.len() > 0 && k < raw.len() - 1 {
        let b = raw.drop_last();
        assert(forall|i: int| 0 <= i < b.len() ==> b[i] == raw[i]);
        law_focus_is_the_last_reported(last, b, k);
        assert(!(raw[raw.len() - 1].report is Focus));
    }
}

/// The two reports are of the same process.
pub open spec fn same_process(a: FocusView, b: FocusView) -> bool {
    a.pid == b.pid && a.process_start_time == b.process_start_time && a.app_name == b.app_name
}

/// What a batch gave is never taken back by what follows it, and a focus report adds to it: for
/// another process the change of application, for another window of the process the change of
/// window, each with the hint about the focus and a pulse behind it; for another title of the
/// window the polled hint about the title; else nothing, wherever the window lies and whatever its
/// size is. The first report of all counts as another process.
pub proof fn law_focus_reports_tell_what_changed(
    last: Option<FocusView>,
    raw: Seq<RawEventView>,
    e: RawEventView,
)
    requires
        e.report is Focus,
    ensures
        ({
            let now = e.report->Focus_0;
            let was = focus_after(last, raw);
            let before = adapted(last, raw);
            let after = adapted(last, raw.push(e));
            let n = before.len() as int;
            &&& before.is_prefix_of(after)
            &&& (was is None || !same_process(was->0, now)) ==> {
                &&& after.len() == n + 3
                &&& carries(
                    after[n],
                    e,
                    EventKind::Signal(SignalKind::AppChanged),
                    PayloadView::Focus(now),
                )
            }
            &&& (was is Some && same_process(was->0, now) && was->0.window_id != now.window_id)
                ==> {
                &&& after.len() == n + 3
                &&& carries(
                    after[n],
                    e,
                    EventKind::Signal(SignalKind::WindowChanged),
                    PayloadView::Focus(now),
                )
            }
            &&& (was is None || !same_process(was->0, now) || was->0.window_id != now.window_id)
                ==> {
                &&& carries(
                    after[n + 1],
                    e,
                    EventKind::Hint(HintKind::FocusChanged),
                    PayloadView::Focus(now),
                )
                &&& carries(
                    after[n + 2],
                    e,
                    EventKind::Signal(SignalKind::ActivityPulse),
                    PayloadView::Empty,
                )
            }
            &&& (was is Some && same_process(was->0, now) && was->0.window_id == now.window_id) ==> {
                if was->0.window_title == now.window_title {
                    after == before
                } else {
                    &&& after.len() == n + 1
                    &&& after[n].id == e.event_id
                    &&& after[n].timestamp == e.timestamp
                    &&& after[n].kind == EventKind::Hint(HintKind::TitleChanged)
                    &&& after[n].payload == (PayloadView::Title {
                        window_id: now.window_id,
                        title: now.window_title,
                    })
                    &&& after[n].source == EventSource::Polling
                    &&& after[n].polling && !after[n].derived && !after[n].sensitive
                }
            }
        }),
{
    let more = raw.push(e);
    assert(more.drop_last() =~= raw);
    assert(more.last() == e);
    let before = adapted(last, raw);
    let one = adapted_one(focus_after(last, raw), e);
    assert(adapted(last, more) == before + one);
    assert(before.is_prefix_of(before + one));
    let n = before.len() as int;
    if one.len() == 0 {
        assert(before + one =~= before);
    } else {
        assert((before + one)[n] == one[0]);
    }
    if one.len() == 3 {
        assert((before + one)[n + 1] == one[1]);
        assert((before + one)[n + 2] == one[2]);
    }
}

/// Input adds its one signal to what a batch gave, and nothing else.
pub proof fn law_input_adds_its_signal(
    last: Option<FocusView>,
    raw: Seq<RawEventView>,
    e: RawEventView,
)
    requires
        !(e.report is Focus),
    ensures
        ({
            let before = adapted(last, raw);
            let after = adapted(last, raw.push(e));
            &&& after.len() == before.len() + 1
            &&& before.is_prefix_of(after)
            &&& signals_input(after.last(), e)
            &&& focus_after(last, raw.push(e)) == focus_after(last, raw)
        }),
{
    let more = raw.push(e);
    assert(more.drop_last() =~= raw);
    assert(more.last() == e);
}

} // verus!
