//! The loop between the input hooks and the store: it gathers events while they come in and hands
//! them on as a batch once there is a pause.

use crate::events::{
    FocusView, KeyboardEventData, KeyboardView, MouseEventData, MousePosition, RawEvent,
    RawEventView, Report, WindowFocusInfo,
};
use crate::records::{ActivityRecord, RecordView};
use crate::time::{is_instant, Timestamp};
use crate::views::{lemma_take_all, lemma_take_succ, lemma_views_push, view_opt, views};
use vstd::prelude::*;

verus! {

/// How long the loop waits for an event, in milliseconds.
pub const WAIT_MILLIS: u64 = 50;

/// What the loop is told of.
#[derive(Debug)]
pub enum ChronicleEvent {
    KeyboardInput,
    MouseInput,
    WindowFocusChange { focus_info: WindowFocusInfo },
    Shutdown,
}

#[verifier::ext_equal]
pub enum ChronicleView {
    KeyboardInput,
    MouseInput,
    WindowFocusChange(FocusView),
    Shutdown,
}

impl View for ChronicleEvent {
    type V = ChronicleView;

    open spec fn view(&self) -> ChronicleView {
        match self {
            ChronicleEvent::KeyboardInput => ChronicleView::KeyboardInput,
            ChronicleEvent::MouseInput => ChronicleView::MouseInput,
            ChronicleEvent::WindowFocusChange { focus_info } => {
                ChronicleView::WindowFocusChange(focus_info@)
            },
            ChronicleEvent::Shutdown => ChronicleView::Shutdown,
        }
    }
}

impl Clone for ChronicleEvent {
    fn clone(&self) -> (res: Self)
        ensures
            res@ == self@,
    {
        match self {
            ChronicleEvent::KeyboardInput => ChronicleEvent::KeyboardInput,
            ChronicleEvent::MouseInput => ChronicleEvent::MouseInput,
            ChronicleEvent::WindowFocusChange { focus_info } => ChronicleEvent::WindowFocusChange {
                focus_info: focus_info.clone(),
            },
            ChronicleEvent::Shutdown => ChronicleEvent::Shutdown,
        }
    }
}

/// What the input hook reports.
#[derive(Clone, Copy, Debug, PartialEq, Eq, Structural)]
pub enum HookReport {
    Keyboard,
    Mouse,
    Wheel,
    HookEnabled,
    HookDisabled,
}

/// What the loop is told of a report of the input hook: nothing where the hook itself was turned
/// on or off.
pub fn event_of_report(report: HookReport) -> (r: Option<ChronicleEvent>)
    ensures
        view_opt(r) == match report {
            HookReport::Keyboard => Some(ChronicleView::KeyboardInput),
            HookReport::Mouse | HookReport::Wheel => Some(ChronicleView::MouseInput),
            HookReport::HookEnabled | HookReport::HookDisabled => None,
        },
{
    match report {
        HookReport::Keyboard => Some(ChronicleEvent::KeyboardInput),
        HookReport::Mouse => Some(ChronicleEvent::MouseInput),
        HookReport::Wheel => Some(ChronicleEvent::MouseInput),
        HookReport::HookEnabled => None,
        HookReport::HookDisabled => None,
    }
}

/// The number of an event that came at the given instant: its milliseconds, modulo 2^64.
pub open spec fn number_at(t: Timestamp) -> u64 {
    (t.millis() % 0x1_0000_0000_0000_0000) as u64
}

/// The raw event that stands for what the loop was told of; none for the end of the run.
pub open spec fn raw_of(e: ChronicleView, now: Timestamp, counted: Timestamp) -> Option<
    RawEventView,
> {
    let report = match e {
        ChronicleView::KeyboardInput => Some(
            Report::Keyboard(
                KeyboardView { key_code: None, key_char: None, modifiers: Seq::empty() },
            ),
        ),
        ChronicleView::MouseInput => Some(
            Report::Mouse(
                MouseEventData {
                    position: MousePosition { x: 0, y: 0 },
                    button: None,
                    click_count: None,
                    event_type: None,
                    wheel_amount: None,
                    wheel_rotation: None,
                    wheel_axis: None,
                },
            ),
        ),
        ChronicleView::WindowFocusChange(focus) => Some(Report::Focus(focus)),
        ChronicleView::Shutdown => None,
    };
    match report {
        Some(report) => Some(
            RawEventView { timestamp: now, event_id: number_at(counted), report },
        ),
        None => None,
    }
}

/// Why an event has no raw event.
#[derive(Clone, Copy, Debug, PartialEq, Eq, Structural)]
pub struct ShutdownIsNoInput;

impl ShutdownIsNoInput {
    pub fn message(&self) -> (r: &'static str)
        ensures
            r@ == "Cannot convert Shutdown event to RawEvent"@,
    {
        "Cannot convert Shutdown event to RawEvent"
    }
}

fn event_number(t: Timestamp) -> (r: u64)
    ensures
        r == number_at(t),
{
    let millis: i64 = t.timestamp_millis();
    if millis < 0 {
        let back: u64 = (-(millis + 1)) as u64;
        assert((millis as int) % 0x1_0000_0000_0000_0000 == 0x1_0000_0000_0000_0000 + millis)
            by (nonlinear_arith)
            requires
                -0x1_0000_0000_0000_0000 < millis < 0,
        ;
        u64::MAX - back
    } else {
        millis as u64
    }
}

/// Turns input into records.
#[derive(Clone, Copy, Debug)]
pub struct EventCoordinator;

impl EventCoordinator {
    pub fn new() -> (r: Self)
        ensures
            r == EventCoordinator,
    {
        EventCoordinator
    }

    /// The raw event that stands for what the loop was told of at `now`. It is numbered by the
    /// second reading of the clock.
    pub fn convert_chronicle_to_raw_at(
        event: ChronicleEvent,
        now: Timestamp,
        counted: Timestamp,
    ) -> (r: Result<RawEvent, ShutdownIsNoInput>)
        ensures
            match r {
                Ok(raw) => raw_of(event@, now, counted) == Some(raw@),
                Err(_) => event@ is Shutdown,
            },
    {
        let event_id: u64 = event_number(counted);
        match event {
            ChronicleEvent::KeyboardInput => {
                let data = KeyboardEventData {
                    key_code: None,
                    key_char: None,
                    modifiers: Vec::new(),
                };
                assert(data@.modifiers =~= Seq::empty());
                Ok(RawEvent::KeyboardInput { timestamp: now, event_id, data })
            },
            ChronicleEvent::MouseInput => Ok(
                RawEvent::MouseInput {
                    timestamp: now,
                    event_id,
                    data: MouseEventData {
                        position: MousePosition { x: 0, y: 0 },
                        button: None,
                        click_count: None,
                        event_type: None,
                        wheel_amount: None,
                        wheel_rotation: None,
                        wheel_axis: None,
                    },
                },
            ),
            ChronicleEvent::WindowFocusChange { focus_info } => Ok(
                RawEvent::WindowFocusChange { timestamp: now, event_id, focus_info },
            ),
            ChronicleEvent::Shutdown => Err(ShutdownIsNoInput),
        }
    }

    /// The raw event that stands for what the loop is told of now.
    pub fn convert_chronicle_to_raw(event: ChronicleEvent) -> (r: Result<
        RawEvent,
        ShutdownIsNoInput,
    >)
        ensures
            r is Err <==> event@ is Shutdown,
            r is Ok ==> exists|now: Timestamp, counted: Timestamp|
                raw_of(event@, now, counted) == Some(r->Ok_0@),
    {
        let now = Timestamp::now();
        let counted = Timestamp::now();
        let ghost e = event@;
        let r = EventCoordinator::convert_chronicle_to_raw_at(event, now, counted);
        proof {
            if r is Ok {
                assert(raw_of(e, now, counted) == Some(r->Ok_0@));
            }
        }
        r
    }
}

/// What a wait for the next event ended with.
#[derive(Debug)]
pub enum Wait {
    Event(ChronicleEvent),
    Timeout,
    Disconnected,
}

#[verifier::ext_equal]
pub enum WaitView {
    Event(ChronicleView),
    Timeout,
    Disconnected,
}

impl View for Wait {
    type V = WaitView;

    open spec fn view(&self) -> WaitView {
        match self {
            Wait::Event(e) => WaitView::Event(e@),
            Wait::Timeout => WaitView::Timeout,
            Wait::Disconnected => WaitView::Disconnected,
        }
    }
}

/// What the loop does after a wait.
#[derive(Debug)]
pub enum LoopStep {
    /// Look for a state that has run out.
    CheckTimeouts,
    /// Make records of the batch and store both, then look for a state that has run out.
    Process(Vec<RawEvent>),
    /// Close the last record and end.
    Finish,
}

#[verifier::ext_equal]
pub enum StepView {
    CheckTimeouts,
    Process(Seq<RawEventView>),
    Finish,
}

impl View for LoopStep {
    type V = StepView;

    open spec fn view(&self) -> StepView {
        match self {
            LoopStep::CheckTimeouts => StepView::CheckTimeouts,
            LoopStep::Process(batch) => StepView::Process(views(batch@)),
            LoopStep::Finish => StepView::Finish,
        }
    }
}

/// A wait, and the readings of the clock after it.
#[verifier::ext_equal]
pub struct Wake {
    pub wait: WaitView,
    pub now: Timestamp,
    pub counted: Timestamp,
}

/// What the loop does after a wait, with the given events gathered.
pub open spec fn step_after(pending: Seq<RawEventView>, wait: WaitView) -> StepView {
    match wait {
        WaitView::Event(e) => if e is Shutdown {
            StepView::Finish
        } else {
            StepView::CheckTimeouts
        },
        WaitView::Timeout => if pending.len() > 0 {
            StepView::Process(pending)
        } else {
            StepView::CheckTimeouts
        },
        WaitView::Disconnected => StepView::Finish,
    }
}

/// The events gathered after a wait.
pub open spec fn pending_after(pending: Seq<RawEventView>, w: Wake) -> Seq<RawEventView> {
    match w.wait {
        WaitView::Event(e) => match raw_of(e, w.now, w.counted) {
            Some(raw) => pending.push(raw),
            None => pending,
        },
        WaitView::Timeout => Seq::empty(),
        WaitView::Disconnected => pending,
    }
}

/// The state of the loop: the events gathered, and the records made up to now.
#[derive(Debug)]
pub struct DataLoop {
    pub pending: Vec<RawEvent>,
    pub recent: Vec<ActivityRecord>,
}

#[verifier::ext_equal]
pub struct LoopView {
    pub pending: Seq<RawEventView>,
    pub recent: Seq<RecordView>,
}

impl View for DataLoop {
    type V = LoopView;

    open spec fn view(&self) -> LoopView {
        LoopView { pending: views(self.pending@), recent: views(self.recent@) }
    }
}

fn push_all(to: &mut Vec<ActivityRecord>, from: &Vec<ActivityRecord>)
    ensures
        views(final(to)@) == views(old(to)@) + views(from@),
{
    broadcast use lemma_views_push;

    let ghost before = views(to@);
    let ghost all = views(from@);
    let mut i: usize = 0;
    assert(views(to@) =~= before + all.take(0));
    while i < from.len()
        invariant
            all == views(from@),
            i <= from.len(),
            views(to@) == before + all.take(i as int),
        decreases from.len() - i,
    {
        proof {
            lemma_take_succ(all, i as int);
        }
        let ghost held = views(to@);
        to.push(from[i].clone());
        assert(views(to@) =~= held.push(all[i as int]));
        i += 1;
        assert(views(to@) =~= before + all.take(i as int));
    }
    proof {
        lemma_take_all(all);
    }
}

impl DataLoop {
    pub fn new() -> (r: Self)
        ensures
            r@.pending == Seq::<RawEventView>::empty(),
            r@.recent == Seq::<RecordView>::empty(),
    {
        let r = DataLoop { pending: Vec::new(), recent: Vec::new() };
        assert(r@.pending =~= Seq::empty());
        assert(r@.recent =~= Seq::empty());
        r
    }

    /// Takes note of what a wait ended with.
    pub fn on_wait(&mut self, wait: Wait, now: Timestamp, counted: Timestamp) -> (r: LoopStep)
        ensures
            r@ == step_after(old(self)@.pending, wait@),
            final(self)@.pending == pending_after(
                old(self)@.pending,
                (Wake { wait: wait@, now, counted }),
            ),
            final(self)@.recent == old(self)@.recent,
    {
        broadcast use lemma_views_push;

        match wait {
            Wait::Event(ChronicleEvent::Shutdown) => LoopStep::Finish,
            Wait::Event(event) => {
                match EventCoordinator::convert_chronicle_to_raw_at(event, now, counted) {
                    Ok(raw) => {
                        self.pending.push(raw);
                    },
                    Err(_) => {},
                }
                LoopStep::CheckTimeouts
            },
            Wait::Timeout => {
                if self.pending.len() == 0 {
                    assert(self@.pending =~= Seq::empty());
                    return LoopStep::CheckTimeouts;
                }
                let ghost before = views(self.pending@);
                let mut batch: Vec<RawEvent> = Vec::new();
                std::mem::swap(&mut batch, &mut self.pending);
                assert(views(batch@) == before);
                assert(self@.pending =~= Seq::empty());
                LoopStep::Process(batch)
            },
            Wait::Disconnected => LoopStep::Finish,
        }
    }

    /// Takes note of the records made of a batch: whether they are to be stored.
    pub fn on_records(&mut self, made: &Vec<ActivityRecord>) -> (r: bool)
        ensures
            r == (made@.len() > 0),
            final(self)@ == (LoopView {
                recent: old(self)@.recent + views(made@),
                ..old(self)@
            }),
    {
        push_all(&mut self.recent, made);
        assert(self@ =~= LoopView { recent: old(self)@.recent + views(made@), ..old(self)@ });
        made.len() > 0
    }

    /// The records to show after records were stored, or could not be.
    pub fn after_store(&self, stored: bool) -> (r: Option<Vec<ActivityRecord>>)
        ensures
            match r {
                Some(shown) => stored && views(shown@) == self@.recent,
                None => !stored,
            },
    {
        if stored {
            let shown = self.recent.clone();
            assert(views(shown@) =~= views(self.recent@));
            Some(shown)
        } else {
            None
        }
    }

    /// The raw events to store after they were compressed, or could not be.
    pub fn on_compressed(processed: Option<Vec<RawEvent>>) -> (r: Option<Vec<RawEvent>>)
        ensures
            r == if processed is Some && processed->0@.len() > 0 {
                processed
            } else {
                None
            },
    {
        match processed {
            Some(events) => if events.len() > 0 {
                Some(events)
            } else {
                None
            },
            None => None,
        }
    }

    /// Takes note of the record of a state that has run out: the records to store, if any.
    pub fn on_timed_out(&mut self, record: Option<ActivityRecord>) -> (r: Option<
        Vec<ActivityRecord>,
    >)
        ensures
            match record {
                Some(record) => r is Some && views(r->0@) == seq![record@] && final(self)@ == (
                LoopView { recent: old(self)@.recent.push(record@), ..old(self)@ }),
                None => r is None && final(self)@ == old(self)@,
            },
    {
        broadcast use lemma_views_push;

        match record {
            Some(record) => {
                let mut to_store: Vec<ActivityRecord> = Vec::new();
                to_store.push(record.clone());
                assert(views(to_store@) =~= seq![record@]);
                self.recent.push(record);
                Some(to_store)
            },
            None => None,
        }
    }

    /// The records to store at the end, given the last one.
    pub fn on_finish(record: Option<ActivityRecord>) -> (r: Option<Vec<ActivityRecord>>)
        ensures
            match record {
                Some(record) => r is Some && views(r->0@) == seq![record@],
                None => r is None,
            },
    {
        match record {
            Some(record) => {
                let mut to_store: Vec<ActivityRecord> = Vec::new();
                to_store.push(record);
                assert(views(to_store@) =~= seq![record@]);
                Some(to_store)
            },
            None => None,
        }
    }
}

/// What the loop processes over several waits, batch after batch.
pub open spec fn processed_over(pending: Seq<RawEventView>, ws: Seq<Wake>) -> Seq<RawEventView>
    decreases ws.len(),
{
    if ws.len() == 0 {
        Seq::empty()
    } else {
        let before = processed_over(pending, ws.drop_last());
        match step_after(pending_over(pending, ws.drop_last()), ws.last().wait) {
            StepView::Process(batch) => before + batch,
            _ => before,
        }
    }
}

/// What is gathered after several waits.
pub open spec fn pending_over(pending: Seq<RawEventView>, ws: Seq<Wake>) -> Seq<RawEventView>
    decreases ws.len(),
{
    if ws.len() == 0 {
        pending
    } else {
        pending_after(pending_over(pending, ws.drop_last()), ws.last())
    }
}

/// The raw events of what the loop was told of over several waits.
pub open spec fn told_over(ws: Seq<Wake>) -> Seq<RawEventView>
    decreases ws.len(),
{
    if ws.len() == 0 {
        Seq::empty()
    } else {
        let before = told_over(ws.drop_last());
        match ws.last().wait {
            WaitView::Event(e) => match raw_of(e, ws.last().now, ws.last().counted) {
                Some(raw) => before.push(raw),
                None => before,
            },
            _ => before,
        }
    }
}

/// Until the loop ends, no event is lost, made up or moved: what was processed, followed by what
/// is gathered, is what the loop was told of, in order.
pub proof fn law_loop_keeps_every_event(pending: Seq<RawEventView>, ws: Seq<Wake>)
    ensures
        processed_over(pending, ws) + pending_over(pending, ws) == pending + told_over(ws),
    decreases ws.len(),
{
    if ws.len() == 0 {
        assert(processed_over(pending, ws) + pending_over(pending, ws) =~= pending + told_over(
            ws,
        ));
    } else {
        law_loop_keeps_every_event(pending, ws.drop_last());
        let done = processed_over(pending, ws.drop_last());
        let held = pending_over(pending, ws.drop_last());
        let told = told_over(ws.drop_last());
        assert(done + held == pending + told);
        match ws.last().wait {
            WaitView::Event(e) => match raw_of(e, ws.last().now, ws.last().counted) {
                Some(raw) => {
                    assert(done + held.push(raw) =~= (done + held).push(raw));
                    assert(pending + told.push(raw) =~= (pending + told).push(raw));
                },
                None => {},
            },
            WaitView::Timeout => {
                assert(done + held + Seq::<RawEventView>::empty() =~= done + held);
                if held.len() == 0 {
                    assert(held =~= Seq::empty());
                }
            },
            WaitView::Disconnected => {},
        }
    }
}

/// Each event from the hooks becomes input of its own kind, at the time it came and under the number
/// of the milliseconds at which it was counted; a focus keeps all that was reported of it. Only the
/// end of the program becomes none.
pub proof fn law_each_event_becomes_its_input(
    e: ChronicleView,
    now: Timestamp,
    counted: Timestamp,
)
    requires
        is_instant(counted.secs(), counted.nanos()),
    ensures
        raw_of(e, now, counted) is None <==> e is Shutdown,
        raw_of(e, now, counted) matches Some(raw) ==> {
            &&& raw.timestamp == now
            &&& e is KeyboardInput <==> raw.report is Keyboard
            &&& e is MouseInput <==> raw.report is Mouse
            &&& e is WindowFocusChange <==> raw.report is Focus
            &&& e is WindowFocusChange ==> raw.report->Focus_0 == e->WindowFocusChange_0
            &&& counted.secs() >= 0 ==> raw.event_id == counted.secs() * 1000 + counted.nanos()
                / 1_000_000
        },
{
    if counted.secs() >= 0 {
        let n = counted.secs() * 1000 + counted.nanos() / 1_000_000;
        assert(n % 0x1_0000_0000_0000_0000 == n) by (nonlinear_arith)
            requires
                0 <= n < 0x1_0000_0000_0000_0000,
        ;
    }
}

/// The loop gathers input while it comes, hands on all of it, in order, as soon as none comes for a
/// while, and then holds none; it ends when it is told to or when nothing can come any more.
pub proof fn law_loop_hands_on_what_it_gathered(pending: Seq<RawEventView>, w: Wake)
    ensures
        w.wait is Timeout && pending.len() > 0 ==> step_after(pending, w.wait)
            == StepView::Process(pending) && pending_after(pending, w).len() == 0,
        w.wait is Timeout && pending.len() == 0 ==> step_after(pending, w.wait)
            == StepView::CheckTimeouts && pending_after(pending, w).len() == 0,
        w.wait is Disconnected ==> step_after(pending, w.wait) == StepView::Finish,
        w.wait == WaitView::Event(ChronicleView::Shutdown) ==> step_after(pending, w.wait)
            == StepView::Finish,
        w.wait is Event && w.wait != WaitView::Event(ChronicleView::Shutdown) ==> step_after(
            pending,
            w.wait,
        ) == StepView::CheckTimeouts && pending_after(pending, w).len() == pending.len() + 1
            && pending.is_prefix_of(pending_after(pending, w)),
{
}

} // verus!
