//! The loop of the monitor: what it does next after each thing that happens. It connects to the
//! daemon, asks for the stream of events, draws each event, and starts over when the stream ends,
//! until the user presses `q`.

use crate::stream::{EventStream, StreamView};
use vstd::prelude::*;

verus! {

/// How long the monitor waits for a key while there is no daemon.
pub const WAITING_KEY_MILLIS: u64 = 1000;

/// How long the monitor waits for a key before each line of the stream.
pub const STREAM_KEY_MILLIS: u64 = 10;

/// How long the monitor waits before it connects again after a failure.
pub const RETRY_MILLIS: u64 = 500;

/// Where the monitor is: before a connection, after one that failed, in the head of the stream,
/// or in its body.
#[derive(Debug, Clone, Copy, PartialEq, Eq, Structural)]
pub enum MonitorPhase {
    Connecting,
    Waiting,
    Head,
    Body,
}

/// What happened. `Key` says which key was pressed in the time given for it, if it was a
/// character.
#[derive(Debug)]
pub enum MonitorEvent {
    Connected,
    ConnectFailed,
    RequestFailed,
    Key(Option<char>),
    Line(String),
    Drawn,
    StreamEnded,
}

pub enum MonitorEventView {
    Connected,
    ConnectFailed,
    RequestFailed,
    Key(Option<char>),
    Line(Seq<char>),
    Drawn,
    StreamEnded,
}

impl View for MonitorEvent {
    type V = MonitorEventView;

    open spec fn view(&self) -> MonitorEventView {
        match self {
            MonitorEvent::Connected => MonitorEventView::Connected,
            MonitorEvent::ConnectFailed => MonitorEventView::ConnectFailed,
            MonitorEvent::RequestFailed => MonitorEventView::RequestFailed,
            MonitorEvent::Key(key) => MonitorEventView::Key(*key),
            MonitorEvent::Line(line) => MonitorEventView::Line(line@),
            MonitorEvent::Drawn => MonitorEventView::Drawn,
            MonitorEvent::StreamEnded => MonitorEventView::StreamEnded,
        }
    }
}

/// What to do next. The numbers are milliseconds: how long to wait for a key, or how long to
/// pause before connecting.
#[derive(Debug)]
pub enum MonitorStep {
    Connect,
    ConnectAfter(u64),
    ShowWaiting(u64),
    WaitForKey(u64),
    ReadLine,
    Draw(String),
    Quit,
}

#[verifier::ext_equal]
pub enum MonitorStepView {
    Connect,
    ConnectAfter(int),
    ShowWaiting(int),
    WaitForKey(int),
    ReadLine,
    Draw(Seq<char>),
    Quit,
}

impl View for MonitorStep {
    type V = MonitorStepView;

    open spec fn view(&self) -> MonitorStepView {
        match self {
            MonitorStep::Connect => MonitorStepView::Connect,
            MonitorStep::ConnectAfter(n) => MonitorStepView::ConnectAfter(*n as int),
            MonitorStep::ShowWaiting(n) => MonitorStepView::ShowWaiting(*n as int),
            MonitorStep::WaitForKey(n) => MonitorStepView::WaitForKey(*n as int),
            MonitorStep::ReadLine => MonitorStepView::ReadLine,
            MonitorStep::Draw(text) => MonitorStepView::Draw(text@),
            MonitorStep::Quit => MonitorStepView::Quit,
        }
    }
}

#[verifier::ext_equal]
pub struct MonitorView {
    pub phase: MonitorPhase,
    pub stream: StreamView,
}

impl MonitorView {
    /// What the monitor does after a key, or when none came in time. Only `q` ends it; else it
    /// goes on with what it waited to do.
    pub open spec fn step_on_key(self, key: Option<char>) -> MonitorStepView {
        if key == Some('q') {
            MonitorStepView::Quit
        } else {
            match self.phase {
                MonitorPhase::Connecting => MonitorStepView::Connect,
                MonitorPhase::Waiting => MonitorStepView::ConnectAfter(RETRY_MILLIS as int),
                MonitorPhase::Head => MonitorStepView::ReadLine,
                MonitorPhase::Body => MonitorStepView::ReadLine,
            }
        }
    }

    /// What the monitor does after a line of the stream: it reads the head to its end, and draws
    /// each event that a line of the body completes.
    pub open spec fn step_on_line(self, line: Seq<char>) -> MonitorStepView {
        match self.stream.event(line) {
            Some(text) => MonitorStepView::Draw(text),
            None => if self.stream.after(line, false).in_head {
                MonitorStepView::ReadLine
            } else {
                MonitorStepView::WaitForKey(STREAM_KEY_MILLIS as int)
            },
        }
    }

    /// What the monitor does after an event.
    pub open spec fn step(self, event: MonitorEventView) -> MonitorStepView {
        match event {
            MonitorEventView::Connected => MonitorStepView::ReadLine,
            MonitorEventView::ConnectFailed => MonitorStepView::ShowWaiting(
                WAITING_KEY_MILLIS as int,
            ),
            MonitorEventView::RequestFailed => MonitorStepView::ConnectAfter(RETRY_MILLIS as int),
            MonitorEventView::Key(key) => self.step_on_key(key),
            MonitorEventView::Line(line) => self.step_on_line(line),
            MonitorEventView::Drawn => MonitorStepView::WaitForKey(STREAM_KEY_MILLIS as int),
            MonitorEventView::StreamEnded => if self.phase == MonitorPhase::Head {
                MonitorStepView::WaitForKey(STREAM_KEY_MILLIS as int)
            } else {
                MonitorStepView::Connect
            },
        }
    }

    /// The monitor after an event. Each connection starts with a fresh stream; a stream that
    /// ends in its head counts as one with an empty body.
    pub open spec fn after(self, event: MonitorEventView) -> MonitorView {
        match event {
            MonitorEventView::Connected => MonitorView {
                phase: MonitorPhase::Head,
                stream: StreamView { in_head: true, data: Seq::empty() },
            },
            MonitorEventView::ConnectFailed => MonitorView {
                phase: MonitorPhase::Waiting,
                ..self
            },
            MonitorEventView::RequestFailed => MonitorView {
                phase: MonitorPhase::Connecting,
                ..self
            },
            MonitorEventView::Key(_) => MonitorView {
                phase: if self.phase == MonitorPhase::Waiting {
                    MonitorPhase::Connecting
                } else {
                    self.phase
                },
                ..self
            },
            MonitorEventView::Line(line) => {
                let stream = self.stream.after(line, false);
                MonitorView {
                    phase: if stream.in_head {
                        MonitorPhase::Head
                    } else {
                        MonitorPhase::Body
                    },
                    stream,
                }
            },
            MonitorEventView::Drawn => self,
            MonitorEventView::StreamEnded => if self.phase == MonitorPhase::Head {
                MonitorView {
                    phase: MonitorPhase::Body,
                    stream: StreamView { in_head: false, ..self.stream },
                }
            } else {
                MonitorView { phase: MonitorPhase::Connecting, ..self }
            },
        }
    }
}

/// Drives the monitor: takes what happened and says what to do next.
pub struct MonitorLoop {
    phase: MonitorPhase,
    stream: EventStream,
}

impl View for MonitorLoop {
    type V = MonitorView;

    closed spec fn view(&self) -> MonitorView {
        MonitorView { phase: self.phase, stream: self.stream@ }
    }
}

impl MonitorLoop {
    /// A monitor that has yet to connect.
    pub fn new() -> (r: Self)
        ensures
            r@ == (MonitorView {
                phase: MonitorPhase::Connecting,
                stream: StreamView { in_head: true, data: Seq::empty() },
            }),
    {
        MonitorLoop { phase: MonitorPhase::Connecting, stream: EventStream::new() }
    }

    /// Where the monitor is.
    pub fn phase(&self) -> (r: MonitorPhase)
        ensures
            r == self@.phase,
    {
        self.phase
    }

    fn on_key(&mut self, key: Option<char>) -> (r: MonitorStep)
        ensures
            r@ == old(self)@.step_on_key(key),
            final(self)@ == old(self)@.after(MonitorEventView::Key(key)),
    {
        let was = self.phase;
        if let MonitorPhase::Waiting = was {
            self.phase = MonitorPhase::Connecting;
        }
        if let Some(c) = key {
            if c == 'q' {
                return MonitorStep::Quit;
            }
        }
        match was {
            MonitorPhase::Connecting => MonitorStep::Connect,
            MonitorPhase::Waiting => MonitorStep::ConnectAfter(RETRY_MILLIS),
            MonitorPhase::Head => MonitorStep::ReadLine,
            MonitorPhase::Body => MonitorStep::ReadLine,
        }
    }

    fn on_line(&mut self, line: &str) -> (r: MonitorStep)
        ensures
            r@ == old(self)@.step_on_line(line@),
            final(self)@ == old(self)@.after(MonitorEventView::Line(line@)),
    {
        let done = self.stream.feed(line, false);
        let in_head = self.stream.in_head();
        if in_head {
            self.phase = MonitorPhase::Head;
        } else {
            self.phase = MonitorPhase::Body;
        }
        match done {
            Some(text) => MonitorStep::Draw(text),
            None => if in_head {
                MonitorStep::ReadLine
            } else {
                MonitorStep::WaitForKey(STREAM_KEY_MILLIS)
            },
        }
    }

    /// Takes what happened, and says what to do next.
    pub fn on_event(&mut self, event: MonitorEvent) -> (r: MonitorStep)
        ensures
            r@ == old(self)@.step(event@),
            final(self)@ == old(self)@.after(event@),
    {
        match event {
            MonitorEvent::Connected => {
                self.phase = MonitorPhase::Head;
                self.stream = EventStream::new();
                MonitorStep::ReadLine
            },
            MonitorEvent::ConnectFailed => {
                self.phase = MonitorPhase::Waiting;
                MonitorStep::ShowWaiting(WAITING_KEY_MILLIS)
            },
            MonitorEvent::RequestFailed => {
                self.phase = MonitorPhase::Connecting;
                MonitorStep::ConnectAfter(RETRY_MILLIS)
            },
            MonitorEvent::Key(key) => self.on_key(key),
            MonitorEvent::Line(line) => self.on_line(line.as_str()),
            MonitorEvent::Drawn => MonitorStep::WaitForKey(STREAM_KEY_MILLIS),
            MonitorEvent::StreamEnded => {
                if let MonitorPhase::Head = self.phase {
                    self.phase = MonitorPhase::Body;
                    self.stream.end_head();
                    MonitorStep::WaitForKey(STREAM_KEY_MILLIS)
                } else {
                    self.phase = MonitorPhase::Connecting;
                    MonitorStep::Connect
                }
            },
        }
    }
}

/// The monitor quits when the user presses `q`, wherever it is, and at no other event.
pub proof fn law_only_q_quits(m: MonitorView, event: MonitorEventView)
    ensures
        m.step(event) == MonitorStepView::Quit <==> event == MonitorEventView::Key(Some('q')),
{
}

/// A failed connection is tried again, after the user had time to press a key and a pause.
pub proof fn law_failed_connection_is_tried_again(m: MonitorView, key: Option<char>)
    requires
        key != Some('q'),
    ensures
        m.step(MonitorEventView::ConnectFailed) == MonitorStepView::ShowWaiting(1000),
        m.after(MonitorEventView::ConnectFailed).step(MonitorEventView::Key(key))
            == MonitorStepView::ConnectAfter(500),
        m.after(MonitorEventView::ConnectFailed).after(MonitorEventView::Key(key)).phase
            == MonitorPhase::Connecting,
{
}

/// When the stream ends the monitor connects again, and knows nothing of the stream that ended;
/// where it ends in its head, the user may press a key first.
pub proof fn law_ended_stream_is_opened_again(m: MonitorView, key: Option<char>)
    requires
        key != Some('q'),
    ensures
        m.phase != MonitorPhase::Head ==> m.step(MonitorEventView::StreamEnded)
            == MonitorStepView::Connect,
        m.phase == MonitorPhase::Head ==> ({
            let ended = m.after(MonitorEventView::StreamEnded);
            &&& m.step(MonitorEventView::StreamEnded) == MonitorStepView::WaitForKey(10)
            &&& ended.step(MonitorEventView::Key(key)) == MonitorStepView::ReadLine
            &&& ended.after(MonitorEventView::Key(key)).step(MonitorEventView::StreamEnded)
                == MonitorStepView::Connect
        }),
        m.after(MonitorEventView::StreamEnded).after(MonitorEventView::Connected).stream
            == (StreamView { in_head: true, data: Seq::empty() }),
{
}

} // verus!
