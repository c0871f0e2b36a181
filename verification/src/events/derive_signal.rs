//! Derives the start and the end of a screen lock from the focus, and holds back what happens
//! behind the lock screen.

use crate::events::model::{
    EnvelopeView, EventEnvelope, EventKind, EventPayload, EventSource, HintKind, PayloadView,
    SignalKind,
};
use crate::grouping::kept;
use crate::text::{eq_ignore_ascii_case, same_ignoring_ascii_case};
use crate::views::{group_views, lemma_take_all, lemma_take_succ, views};
use vstd::prelude::*;

verus! {

/// The payload reports the focus of the lock screen.
pub open spec fn is_lock_screen(payload: PayloadView) -> bool {
    payload matches PayloadView::Focus(info) && same_ignoring_ascii_case(
        info.app_name,
        "loginwindow"@,
    )
}

/// A lock signal derived from the event `e`.
pub open spec fn lock_signal(e: EnvelopeView, kind: SignalKind, reason: Seq<char>) -> EnvelopeView {
    EnvelopeView {
        id: e.id,
        timestamp: e.timestamp,
        source: EventSource::Derived,
        kind: EventKind::Signal(kind),
        payload: PayloadView::Lock { reason },
        derived: true,
        polling: false,
        sensitive: false,
    }
}

/// The event is a change of application or window.
pub open spec fn moves_focus(kind: EventKind) -> bool {
    kind == EventKind::Signal(SignalKind::AppChanged) || kind == EventKind::Signal(
        SignalKind::WindowChanged,
    )
}

/// Whether the screen is locked after the event.
pub open spec fn locked_after_one(locked: bool, e: EnvelopeView) -> bool {
    if moves_focus(e.kind) {
        is_lock_screen(e.payload)
    } else if e.kind == EventKind::Signal(SignalKind::LockStart) {
        true
    } else if e.kind == EventKind::Signal(SignalKind::LockEnd) {
        false
    } else {
        locked
    }
}

/// Whether the event itself is passed on.
pub open spec fn passes(locked: bool, e: EnvelopeView) -> bool {
    if moves_focus(e.kind) {
        !is_lock_screen(e.payload)
    } else {
        match e.kind {
            EventKind::Signal(SignalKind::LockStart) => true,
            EventKind::Signal(SignalKind::LockEnd) => true,
            EventKind::Signal(_) => !locked,
            EventKind::Hint(hint) => !locked || hint == HintKind::FocusChanged,
        }
    }
}

/// What one event gives: the lock signal that it implies, then the event itself if it passes.
pub open spec fn derived_one(locked: bool, e: EnvelopeView) -> Seq<EnvelopeView> {
    let signal = if moves_focus(e.kind) && is_lock_screen(e.payload) && !locked {
        seq![lock_signal(e, SignalKind::LockStart, "loginwindow"@)]
    } else if moves_focus(e.kind) && !is_lock_screen(e.payload) && locked {
        seq![lock_signal(e, SignalKind::LockEnd, "unlock"@)]
    } else {
        Seq::empty()
    };
    if passes(locked, e) {
        signal.push(e)
    } else {
        signal
    }
}

/// Whether the screen is locked after the events.
pub open spec fn locked_after(locked: bool, input: Seq<EnvelopeView>) -> bool
    decreases input.len(),
{
    if input.len() == 0 {
        locked
    } else {
        locked_after_one(locked_after(locked, input.drop_last()), input.last())
    }
}

/// What the events give, in order.
pub open spec fn derived(locked: bool, input: Seq<EnvelopeView>) -> Seq<EnvelopeView>
    decreases input.len(),
{
    if input.len() == 0 {
        Seq::empty()
    } else {
        derived(locked, input.drop_last()) + derived_one(
            locked_after(locked, input.drop_last()),
            input.last(),
        )
    }
}

/// Remembers whether the screen is locked.
pub struct LockDeriver {
    locked: bool,
}

fn lock_envelope(e: &EventEnvelope, kind: SignalKind, reason: &str) -> (r: EventEnvelope)
    ensures
        r@ == lock_signal(e@, kind, reason@),
{
    EventEnvelope {
        id: e.id,
        timestamp: e.timestamp,
        source: EventSource::Derived,
        kind: EventKind::Signal(kind),
        payload: EventPayload::Lock { reason: reason.to_string() },
        derived: true,
        polling: false,
        sensitive: false,
    }
}

fn shows_lock_screen(payload: &EventPayload) -> (r: bool)
    ensures
        r == is_lock_screen(payload@),
{
    match payload {
        EventPayload::Focus(info) => eq_ignore_ascii_case(info.app_name.as_str(), "loginwindow"),
        _ => false,
    }
}

impl LockDeriver {
    /// Whether the screen is locked.
    pub closed spec fn locked(&self) -> bool {
        self.locked
    }

    pub fn new() -> (r: Self)
        ensures
            !r.locked(),
    {
        LockDeriver { locked: false }
    }

    fn derive_one(&mut self, e: &EventEnvelope, out: &mut Vec<EventEnvelope>)
        ensures
            final(self).locked() == locked_after_one(old(self).locked(), e@),
            views(final(out)@) == views(old(out)@) + derived_one(old(self).locked(), e@),
    {
        broadcast use group_views;

        let ghost before = views(out@);
        let mut forward_original = true;
        match &e.kind {
            EventKind::Signal(kind) => match kind {
                SignalKind::AppChanged | SignalKind::WindowChanged => {
                    if shows_lock_screen(&e.payload) {
                        if !self.locked {
                            out.push(lock_envelope(e, SignalKind::LockStart, "loginwindow"));
                        }
                        self.locked = true;
                        forward_original = false;
                    } else if self.locked {
                        out.push(lock_envelope(e, SignalKind::LockEnd, "unlock"));
                        self.locked = false;
                    }
                },
                SignalKind::LockStart => {
                    self.locked = true;
                },
                SignalKind::LockEnd => {
                    self.locked = false;
                },
                _ => {
                    if self.locked {
                        forward_original = false;
                    }
                },
            },
            EventKind::Hint(hint) => {
                if self.locked {
                    forward_original = matches!(hint, HintKind::FocusChanged);
                }
            },
        }
        if forward_original {
            out.push(e.clone());
        }
        assert(views(out@) =~= before + derived_one(old(self).locked(), e@));
    }

    /// Adds the lock signals that the events imply, and drops what a locked screen hides.
    pub fn derive(&mut self, input: &[EventEnvelope]) -> (out: Vec<EventEnvelope>)
        ensures
            views(out@) == derived(old(self).locked(), views(input@)),
            final(self).locked() == locked_after(old(self).locked(), views(input@)),
    {
        let ghost start = self.locked();
        let ghost all = views(input@);
        let mut out: Vec<EventEnvelope> = Vec::new();
        let mut i: usize = 0;
        assert(views(out@) =~= derived(start, all.take(0)));
        while i < input.len()
            invariant
                i <= input.len(),
                all == views(input@),
                views(out@) == derived(start, all.take(i as int)),
                self.locked() == locked_after(start, all.take(i as int)),
            decreases input.len() - i,
        {
            proof {
                lemma_take_succ(all, i as int);
            }
            self.derive_one(&input[i], &mut out);
            i += 1;
        }
        proof {
            lemma_take_all(all);
        }
        out
    }
}

/// Where a stream of events is cut into batches makes no difference.
pub proof fn law_batches_join(locked: bool, a: Seq<EnvelopeView>, b: Seq<EnvelopeView>)
    ensures
        derived(locked, a + b) == derived(locked, a) + derived(locked_after(locked, a), b),
        locked_after(locked, a + b) == locked_after(locked_after(locked, a), b),
    decreases b.len(),
{
    if b.len() == 0 {
        assert(a + b =~= a);
        assert(derived(locked, a) + derived(locked_after(locked, a), b) =~= derived(locked, a));
    } else {
        assert((a + b).drop_last() =~= a + b.drop_last());
        assert((a + b).last() == b.last());
        law_batches_join(locked, a, b.drop_last());
        assert(derived(locked, a + b) =~= derived(locked, a) + derived(
            locked_after(locked, a),
            b,
        ));
    }
}

/// Behind a locked screen, input that neither moves the focus nor ends the lock leaves the
/// screen locked; of it only focus hints and the start of a lock pass.
pub proof fn law_lock_holds_back_input(input: Seq<EnvelopeView>)
    requires
        forall|i: int|
            0 <= i < input.len() ==> !moves_focus((#[trigger] input[i]).kind) && input[i].kind
                != EventKind::Signal(SignalKind::LockEnd),
    ensures
        locked_after(true, input),
        derived(true, input) == input.filter(
            |e: EnvelopeView|
                e.kind == EventKind::Hint(HintKind::FocusChanged) || e.kind == EventKind::Signal(
                    SignalKind::LockStart,
                ),
        ),
    decreases input.len(),
{
    let keep = |e: EnvelopeView|
        e.kind == EventKind::Hint(HintKind::FocusChanged) || e.kind == EventKind::Signal(
            SignalKind::LockStart,
        );
    reveal(Seq::filter);
    if input.len() > 0 {
        let e = input.last();
        assert(!moves_focus(input[input.len() - 1].kind));
        law_lock_holds_back_input(input.drop_last());
        assert(input.filter(keep) =~= if keep(e) {
            input.drop_last().filter(keep).push(e)
        } else {
            input.drop_last().filter(keep)
        });
        assert(derived(true, input) =~= input.filter(keep));
    }
}

/// An unlocked screen that never shows the lock screen passes everything on and adds nothing.
pub proof fn law_unlocked_passes_everything(input: Seq<EnvelopeView>)
    requires
        forall|i: int|
            0 <= i < input.len() ==> !((moves_focus((#[trigger] input[i]).kind) && is_lock_screen(
                input[i].payload,
            )) || input[i].kind == EventKind::Signal(SignalKind::LockStart)),
    ensures
        derived(false, input) == input,
        !locked_after(false, input),
    decreases input.len(),
{
    if input.len() > 0 {
        law_unlocked_passes_everything(input.drop_last());
        assert(!(moves_focus(input[input.len() - 1].kind) && is_lock_screen(
            input[input.len() - 1].payload,
        )));
        assert(derived(false, input) =~= input);
    }
}

/// The event is the start or the end of a lock.
pub open spec fn is_lock_kind(kind: EventKind) -> bool {
    kind == EventKind::Signal(SignalKind::LockStart) || kind == EventKind::Signal(
        SignalKind::LockEnd,
    )
}

pub open spec fn lock_events() -> spec_fn(EnvelopeView) -> bool {
    |e: EnvelopeView| is_lock_kind(e.kind)
}

pub open spec fn other_events() -> spec_fn(EnvelopeView) -> bool {
    |e: EnvelopeView| !is_lock_kind(e.kind)
}

/// No event is itself the start or the end of a lock.
pub open spec fn without_locks(input: Seq<EnvelopeView>) -> bool {
    forall|i: int| 0 <= i < input.len() ==> !is_lock_kind((#[trigger] input[i]).kind)
}

/// Whether a lock is open after the events, by their starts and ends of locks alone.
pub open spec fn open_after(open: bool, events: Seq<EnvelopeView>) -> bool
    decreases events.len(),
{
    if events.len() == 0 {
        open
    } else if is_lock_kind(events.last().kind) {
        events.last().kind == EventKind::Signal(SignalKind::LockStart)
    } else {
        open_after(open, events.drop_last())
    }
}

/// The events that are passed on, in order.
pub open spec fn forwarded(locked: bool, input: Seq<EnvelopeView>) -> Seq<EnvelopeView>
    decreases input.len(),
{
    if input.len() == 0 {
        Seq::empty()
    } else {
        let before = forwarded(locked, input.drop_last());
        if passes(locked_after(locked, input.drop_last()), input.last()) {
            before.push(input.last())
        } else {
            before
        }
    }
}

/// The event fits behind what came before it: a lock starts only where none is open, ends only
/// where one is, and while one is open nothing else comes but focus hints.
pub open spec fn fits_lock(open: bool, e: EnvelopeView) -> bool {
    &&& e.kind == EventKind::Signal(SignalKind::LockStart) ==> !open
    &&& e.kind == EventKind::Signal(SignalKind::LockEnd) ==> open
    &&& open && !is_lock_kind(e.kind) ==> e.kind == EventKind::Hint(HintKind::FocusChanged)
}

proof fn lemma_push_fits(open: bool, out: Seq<EnvelopeView>, e: EnvelopeView)
    requires
        forall|i: int|
            0 <= i < out.len() ==> fits_lock(open_after(open, out.take(i)), #[trigger] out[i]),
        fits_lock(open_after(open, out), e),
    ensures
        forall|i: int|
            0 <= i <= out.len() ==> fits_lock(
                open_after(open, out.push(e).take(i)),
                #[trigger] out.push(e)[i],
            ),
        open_after(open, out.push(e)) == if is_lock_kind(e.kind) {
            e.kind == EventKind::Signal(SignalKind::LockStart)
        } else {
            open_after(open, out)
        },
        kept(out.push(e), lock_events()) == if is_lock_kind(e.kind) {
            kept(out, lock_events()).push(e)
        } else {
            kept(out, lock_events())
        },
        kept(out.push(e), other_events()) == if is_lock_kind(e.kind) {
            kept(out, other_events())
        } else {
            kept(out, other_events()).push(e)
        },
{
    let longer = out.push(e);
    assert(longer.drop_last() =~= out);
    assert forall|i: int| 0 <= i <= out.len() implies fits_lock(
        open_after(open, longer.take(i)),
        #[trigger] longer[i],
    ) by {
        assert(longer.take(i) =~= out.take(i));
        if i < out.len() {
            assert(longer[i] == out[i]);
        } else {
            assert(out.take(i) =~= out);
        }
    }
}

/// What holds of everything derived from events without lock signals of their own: a lock starts
/// only where none is open and ends only where one is; while one is open nothing else comes but
/// focus hints; and apart from the lock signals the result is exactly the events that pass,
/// unchanged and in order. Where no lock is open, everything passes but the focus of the lock
/// screen; where one is, focus hints pass, and the focus that ends it.
pub proof fn law_locks_frame_the_events(locked: bool, input: Seq<EnvelopeView>)
    requires
        without_locks(input),
    ensures
        ({
            let out = derived(locked, input);
            &&& forall|i: int|
                0 <= i < out.len() ==> fits_lock(open_after(locked, out.take(i)), #[trigger] out[i])
            &&& open_after(locked, out) == locked_after(locked, input)
            &&& kept(out, other_events()) == forwarded(locked, input)
        }),
        forall|e: EnvelopeView|
            !is_lock_kind(e.kind) ==> #[trigger] passes(false, e) == !(moves_focus(e.kind)
                && is_lock_screen(e.payload)),
        forall|e: EnvelopeView|
            !is_lock_kind(e.kind) ==> #[trigger] passes(true, e) == ((moves_focus(e.kind)
                && !is_lock_screen(e.payload)) || e.kind == EventKind::Hint(
                HintKind::FocusChanged,
            )),
    decreases input.len(),
{
    if input.len() > 0 {
        let b = input.drop_last();
        let e = input.last();
        assert forall|i: int| 0 <= i < b.len() implies !is_lock_kind((#[trigger] b[i]).kind) by {
            assert(b[i] == input[i]);
        }
        law_locks_frame_the_events(locked, b);
        let before = derived(locked, b);
        let held = locked_after(locked, b);
        assert(!is_lock_kind(input[input.len() - 1].kind));
        assert(derived(locked, input) == before + derived_one(held, e));
        if moves_focus(e.kind) && is_lock_screen(e.payload) && !held {
            let signal = lock_signal(e, SignalKind::LockStart, "loginwindow"@);
            lemma_push_fits(locked, before, signal);
            assert(before + derived_one(held, e) =~= before.push(signal));
        } else if moves_focus(e.kind) && !is_lock_screen(e.payload) && held {
            let signal = lock_signal(e, SignalKind::LockEnd, "unlock"@);
            lemma_push_fits(locked, before, signal);
            lemma_push_fits(locked, before.push(signal), e);
            assert(before + derived_one(held, e) =~= before.push(signal).push(e));
        } else if passes(held, e) {
            lemma_push_fits(locked, before, e);
            assert(before + derived_one(held, e) =~= before.push(e));
        } else {
            assert(before + derived_one(held, e) =~= before);
        }
    } else {
        assert(kept(derived(locked, input), other_events()) =~= forwarded(locked, input));
    }
}

proof fn lemma_locks_alternate(open: bool, out: Seq<EnvelopeView>)
    requires
        forall|i: int|
            0 <= i < out.len() ==> fits_lock(open_after(open, out.take(i)), #[trigger] out[i]),
    ensures
        ({
            let locks = kept(out, lock_events());
            &&& open_after(open, out) == (if locks.len() % 2 == 0 {
                open
            } else {
                !open
            })
            &&& forall|i: int|
                0 <= i < locks.len() ==> (#[trigger] locks[i]).kind == EventKind::Signal(
                    if (i % 2 == 0) != open {
                        SignalKind::LockStart
                    } else {
                        SignalKind::LockEnd
                    },
                )
        }),
    decreases out.len(),
{
    if out.len() > 0 {
        let b = out.drop_last();
        assert forall|i: int| 0 <= i < b.len() implies fits_lock(
            open_after(open, b.take(i)),
            #[trigger] b[i],
        ) by {
            assert(b[i] == out[i]);
            assert(b.take(i) =~= out.take(i));
        }
        lemma_locks_alternate(open, b);
        assert(out.take(out.len() - 1) =~= b);
        assert(fits_lock(open_after(open, out.take(out.len() - 1)), out[out.len() - 1]));
    }
}

/// Derived from events without lock signals of their own, the starts and ends of locks alternate;
/// from an unlocked screen on, a start comes first.
pub proof fn law_locks_alternate(locked: bool, input: Seq<EnvelopeView>)
    requires
        without_locks(input),
    ensures
        ({
            let locks = kept(derived(locked, input), lock_events());
            forall|i: int|
                0 <= i < locks.len() ==> (#[trigger] locks[i]).kind == EventKind::Signal(
                    if (i % 2 == 0) != locked {
                        SignalKind::LockStart
                    } else {
                        SignalKind::LockEnd
                    },
                )
        }),
{
    law_locks_frame_the_events(locked, input);
    lemma_locks_alternate(locked, derived(locked, input));
}

/// All batches after one another.
pub open spec fn joined(batches: Seq<Seq<EnvelopeView>>) -> Seq<EnvelopeView>
    decreases batches.len(),
{
    if batches.len() == 0 {
        Seq::empty()
    } else {
        joined(batches.drop_last()) + batches.last()
    }
}

/// Whether the screen is locked after the batches.
pub open spec fn locked_over(locked: bool, batches: Seq<Seq<EnvelopeView>>) -> bool
    decreases batches.len(),
{
    if batches.len() == 0 {
        locked
    } else {
        locked_after(locked_over(locked, batches.drop_last()), batches.last())
    }
}

/// What the batches give, one call after another.
pub open spec fn derived_over(locked: bool, batches: Seq<Seq<EnvelopeView>>) -> Seq<EnvelopeView>
    decreases batches.len(),
{
    if batches.len() == 0 {
        Seq::empty()
    } else {
        derived_over(locked, batches.drop_last()) + derived(
            locked_over(locked, batches.drop_last()),
            batches.last(),
        )
    }
}

proof fn lemma_over_batches(locked: bool, batches: Seq<Seq<EnvelopeView>>)
    ensures
        derived_over(locked, batches) == derived(locked, joined(batches)),
        locked_over(locked, batches) == locked_after(locked, joined(batches)),
        (forall|i: int| 0 <= i < batches.len() ==> without_locks(#[trigger] batches[i]))
            ==> without_locks(joined(batches)),
    decreases batches.len(),
{
    if batches.len() > 0 {
        let b = batches.drop_last();
        lemma_over_batches(locked, b);
        law_batches_join(locked, joined(b), batches.last());
        if forall|i: int| 0 <= i < batches.len() ==> without_locks(#[trigger] batches[i]) {
            assert forall|i: int| 0 <= i < b.len() implies without_locks(#[trigger] b[i]) by {
                assert(b[i] == batches[i]);
            }
            assert(without_locks(batches[batches.len() - 1]));
            let all = joined(batches);
            assert forall|i: int| 0 <= i < all.len() implies !is_lock_kind(
                (#[trigger] all[i]).kind,
            ) by {
                if i < joined(b).len() {
                    assert(all[i] == joined(b)[i]);
                } else {
                    assert(all[i] == batches.last()[i - joined(b).len()]);
                }
            }
        }
    }
}

/// Over any number of batches without lock signals of their own, all results taken in order, the
/// starts and ends of locks alternate, from an unlocked screen on with a start first; between a
/// start and the next end only focus hints come; and apart from the lock signals the results are
/// exactly the events that pass, unchanged and in order.
pub proof fn law_locks_alternate_over_batches(locked: bool, batches: Seq<Seq<EnvelopeView>>)
    requires
        forall|i: int| 0 <= i < batches.len() ==> without_locks(#[trigger] batches[i]),
    ensures
        ({
            let out = derived_over(locked, batches);
            let locks = kept(out, lock_events());
            &&& forall|i: int|
                0 <= i < locks.len() ==> (#[trigger] locks[i]).kind == EventKind::Signal(
                    if (i % 2 == 0) != locked {
                        SignalKind::LockStart
                    } else {
                        SignalKind::LockEnd
                    },
                )
            &&& forall|i: int|
                0 <= i < out.len() ==> fits_lock(open_after(locked, out.take(i)), #[trigger] out[i])
            &&& open_after(locked, out) == locked_over(locked, batches)
            &&& kept(out, other_events()) == forwarded(locked, joined(batches))
        }),
{
    lemma_over_batches(locked, batches);
    law_locks_alternate(locked, joined(batches));
    law_locks_frame_the_events(locked, joined(batches));
}

/// The event reports that another application or window has the focus.
pub open spec fn reports_focus(e: EnvelopeView) -> bool {
    e.kind == EventKind::Signal(SignalKind::AppChanged) || e.kind == EventKind::Signal(
        SignalKind::WindowChanged,
    )
}

/// The application that has the focus is the lock screen, in whatever case its name is written.
pub open spec fn focus_on_lock_screen(e: EnvelopeView) -> bool {
    e.payload is Focus && same_ignoring_ascii_case(e.payload->Focus_0.app_name, "loginwindow"@)
}

/// The signal was derived from the event, with its number and its time.
pub open spec fn derived_from(
    s: EnvelopeView,
    e: EnvelopeView,
    kind: SignalKind,
    reason: Seq<char>,
) -> bool {
    &&& s.id == e.id
    &&& s.timestamp == e.timestamp
    &&& s.kind == EventKind::Signal(kind)
    &&& s.payload == (PayloadView::Lock { reason })
    &&& s.source == EventSource::Derived
    &&& s.derived && !s.polling && !s.sensitive
}

/// The focus of the lock screen locks: it is replaced by the start of a lock, or swallowed where the
/// screen is locked already.
pub proof fn law_lock_screen_locks(locked: bool, input: Seq<EnvelopeView>, e: EnvelopeView)
    requires
        reports_focus(e),
        focus_on_lock_screen(e),
    ensures
        ({
            let before = derived(locked, input);
            let after = derived(locked, input.push(e));
            &&& locked_after(locked, input.push(e))
            &&& before.is_prefix_of(after)
            &&& locked_after(locked, input) ==> after == before
            &&& !locked_after(locked, input) ==> after.len() == before.len() + 1 && derived_from(
                after.last(),
                e,
                SignalKind::LockStart,
                "loginwindow"@,
            )
        }),
{
    let more = input.push(e);
    assert(more.drop_last() =~= input);
    assert(more.last() == e);
    let before = derived(locked, input);
    let one = derived_one(locked_after(locked, input), e);
    assert(derived(locked, more) == before + one);
    assert(one.len() == 0 ==> before + one =~= before);
}

/// Any other focus unlocks: it is passed on as it is, behind the end of the lock where the screen
/// was locked.
pub proof fn law_other_focus_unlocks(locked: bool, input: Seq<EnvelopeView>, e: EnvelopeView)
    requires
        reports_focus(e),
        !focus_on_lock_screen(e),
    ensures
        ({
            let before = derived(locked, input);
            let after = derived(locked, input.push(e));
            &&& !locked_after(locked, input.push(e))
            &&& before.is_prefix_of(after)
            &&& after.last() == e
            &&& !locked_after(locked, input) ==> after.len() == before.len() + 1
            &&& locked_after(locked, input) ==> after.len() == before.len() + 2 && derived_from(
                after[before.len() as int],
                e,
                SignalKind::LockEnd,
                "unlock"@,
            )
        }),
{
    let more = input.push(e);
    assert(more.drop_last() =~= input);
    assert(more.last() == e);
    let before = derived(locked, input);
    let one = derived_one(locked_after(locked, input), e);
    assert(derived(locked, more) == before + one);
    assert((before + one)[before.len() as int] == one[0]);
    assert((before + one).last() == one.last());
}

/// What is not about the focus leaves the lock as it is and passes on an unlocked screen; behind a
/// locked one it is swallowed, but for hints about the focus. Starts and ends of locks that come
/// with the events themselves count, and always pass.
pub proof fn law_other_events_pass_when_unlocked(
    locked: bool,
    input: Seq<EnvelopeView>,
    e: EnvelopeView,
)
    requires
        !reports_focus(e),
    ensures
        ({
            let was = locked_after(locked, input);
            let before = derived(locked, input);
            let after = derived(locked, input.push(e));
            &&& locked_after(locked, input.push(e)) == (if e.kind == EventKind::Signal(
                SignalKind::LockStart,
            ) {
                true
            } else if e.kind == EventKind::Signal(SignalKind::LockEnd) {
                false
            } else {
                was
            })
            &&& after == (if !was || e.kind == EventKind::Hint(HintKind::FocusChanged) || e.kind
                == EventKind::Signal(SignalKind::LockStart) || e.kind == EventKind::Signal(
                SignalKind::LockEnd,
            ) {
                before.push(e)
            } else {
                before
            })
        }),
{
    let more = input.push(e);
    assert(more.drop_last() =~= input);
    assert(more.last() == e);
    let before = derived(locked, input);
    let one = derived_one(locked_after(locked, input), e);
    assert(derived(locked, more) == before + one);
    if one.len() == 0 {
        assert(before + one =~= before);
    } else {
        assert(before + one =~= before.push(e));
    }
}

} // verus!
