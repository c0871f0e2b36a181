//! The statements by which the writer carries out its commands.

use crate::compression::CompactEvent;
use crate::events::model::{EnvelopeView, EventEnvelope};
use crate::events::{RawEvent, RawEventView, Report};
use crate::records::{ActivityRecord, RecordView};
use crate::snapshot::{Transition, TransitionView};
use crate::storage::labels::{
    kind_label, kind_named, law_kind_names, law_source_names, law_state_names, source_label,
    source_named, state_label, state_named,
};
use crate::storage::rows::{
    compact_label, compact_span, flag, has_pointer, law_ids_are_read_back, loaded_id, payload_text,
    stored_id, write_compact, write_envelope, write_raw_event, write_record, write_transition,
};
use crate::storage::{Backend, StorageCommand};
use crate::time::Timestamp;
use crate::views::{lemma_take_all, lemma_take_succ, lemma_views_push, view_opt, views};
use vstd::prelude::*;

verus! {

/// A value that goes into a column.
#[derive(Debug)]
pub enum Value {
    Null,
    Text(String),
    Int(i64),
    Bool(bool),
    Time(Timestamp),
}

#[verifier::ext_equal]
pub enum ValueView {
    Null,
    Text(Seq<char>),
    Int(int),
    Bool(bool),
    Time(Timestamp),
}

impl View for Value {
    type V = ValueView;

    open spec fn view(&self) -> ValueView {
        match self {
            Value::Null => ValueView::Null,
            Value::Text(s) => ValueView::Text(s@),
            Value::Int(n) => ValueView::Int(*n as int),
            Value::Bool(b) => ValueView::Bool(*b),
            Value::Time(t) => ValueView::Time(*t),
        }
    }
}

/// A statement, and the values for its question marks.
#[derive(Debug)]
pub struct Statement {
    pub sql: &'static str,
    pub values: Vec<Value>,
}

#[verifier::ext_equal]
pub struct StatementView {
    pub sql: Seq<char>,
    pub values: Seq<ValueView>,
}

impl View for Statement {
    type V = StatementView;

    open spec fn view(&self) -> StatementView {
        StatementView { sql: self.sql@, values: views(self.values@) }
    }
}

/// The JSON of a condensed event, and that of its pointer to raw events.
#[derive(Debug)]
pub struct CompactText {
    pub payload: Option<String>,
    pub pointer: Option<String>,
}

#[verifier::ext_equal]
pub struct CompactTextView {
    pub payload: Option<Seq<char>>,
    pub pointer: Option<Seq<char>>,
}

impl View for CompactText {
    type V = CompactTextView;

    open spec fn view(&self) -> CompactTextView {
        CompactTextView { payload: view_opt(self.payload), pointer: view_opt(self.pointer) }
    }
}

/// SQLite holds an instant as text.
pub open spec fn time_value(b: Backend, t: Timestamp) -> ValueView {
    match b {
        Backend::Sqlite => ValueView::Text(t.text()),
        Backend::DuckDb => ValueView::Time(t),
    }
}

/// SQLite holds a flag as 0 or 1.
pub open spec fn flag_value(b: Backend, on: bool) -> ValueView {
    match b {
        Backend::Sqlite => ValueView::Int(flag(on) as int),
        Backend::DuckDb => ValueView::Bool(on),
    }
}

pub open spec fn text_value(s: Option<Seq<char>>) -> ValueView {
    match s {
        Some(s) => ValueView::Text(s),
        None => ValueView::Null,
    }
}

pub open spec fn end_value(b: Backend, t: Option<Timestamp>) -> ValueView {
    match t {
        Some(t) => time_value(b, t),
        None => ValueView::Null,
    }
}

/// What a raw event is called.
pub open spec fn report_label(r: Report) -> Seq<char> {
    match r {
        Report::Keyboard(_) => "keyboard"@,
        Report::Mouse(_) => "mouse"@,
        Report::Focus(_) => "window_focus_change"@,
    }
}

pub open spec fn raw_event_statement(
    b: Backend,
    e: RawEventView,
    data: Option<Seq<char>>,
) -> StatementView {
    StatementView {
        sql: "INSERT INTO raw_events (timestamp, event_type, data) VALUES (?, ?, ?)"@,
        values: seq![
            time_value(b, e.timestamp),
            ValueView::Text(report_label(e.report)),
            text_value(data),
        ],
    }
}

/// DuckDB does not hold the run of a record.
pub open spec fn record_statement(
    b: Backend,
    r: RecordView,
    focus: Option<Seq<char>>,
) -> StatementView {
    let focus_text = if r.focus_info is Some {
        text_value(focus)
    } else {
        ValueView::Null
    };
    let shared = seq![
        time_value(b, r.start_time),
        end_value(b, r.end_time),
        ValueView::Text(state_label(r.state)),
        focus_text,
    ];
    match b {
        Backend::Sqlite => StatementView {
            sql:
                "INSERT INTO activity_records (start_time, end_time, state, focus_info, run_id) VALUES (?, ?, ?, ?, ?)"@,
            values: shared.push(text_value(r.run_id)),
        },
        Backend::DuckDb => StatementView {
            sql:
                "INSERT INTO activity_records (start_time, end_time, state, focus_info) VALUES (?, ?, ?, ?)"@,
            values: shared,
        },
    }
}

pub open spec fn envelope_statement(
    b: Backend,
    e: EnvelopeView,
    data: Option<Seq<char>>,
) -> StatementView {
    StatementView {
        sql:
            "INSERT INTO raw_envelopes (event_id, timestamp, source, kind, payload, derived, polling, sensitive) VALUES (?, ?, ?, ?, ?, ?, ?, ?)"@,
        values: seq![
            ValueView::Int(stored_id(e.id)),
            time_value(b, e.timestamp),
            ValueView::Text(source_label(e.source)),
            ValueView::Text(kind_label(e.kind)),
            text_value(payload_text(e.payload, data)),
            flag_value(b, e.derived),
            flag_value(b, e.polling),
            flag_value(b, e.sensitive),
        ],
    }
}

/// The pointer of a condensed event to raw events. SQLite holds nothing where there is none.
pub open spec fn pointer_value(b: Backend, e: CompactEvent, text: CompactTextView) -> ValueView {
    match b {
        Backend::Sqlite => if has_pointer(e) {
            text_value(text.pointer)
        } else {
            ValueView::Null
        },
        Backend::DuckDb => match text.pointer {
            Some(s) => ValueView::Text(s),
            None => ValueView::Text("[]"@),
        },
    }
}

pub open spec fn compact_statement(
    b: Backend,
    e: CompactEvent,
    text: CompactTextView,
) -> StatementView {
    StatementView {
        sql: match b {
            Backend::Sqlite =>
                "INSERT INTO compact_events (start_time, end_time, kind, payload, raw_event_ref) VALUES (?, ?, ?, ?, ?)"@,
            Backend::DuckDb =>
                "INSERT INTO compact_events (start_time, end_time, kind, payload, raw_event_ids) VALUES (?, ?, ?, ?, ?)"@,
        },
        values: seq![
            time_value(b, compact_span(e).0),
            time_value(b, compact_span(e).1),
            ValueView::Text(compact_label(e)),
            text_value(text.payload),
            pointer_value(b, e, text),
        ],
    }
}

pub open spec fn transition_statement(t: TransitionView) -> StatementView {
    StatementView {
        sql:
            "INSERT INTO recent_transitions (at, from_state, to_state, by_signal, run_id) VALUES (?, ?, ?, ?, ?)"@,
        values: seq![
            ValueView::Text(t.at.text()),
            ValueView::Text(state_label(t.from)),
            ValueView::Text(state_label(t.to)),
            text_value(t.by_signal),
            text_value(t.run_id),
        ],
    }
}

/// The statements that carry out a command, in order. `data` is the JSON of a raw event, of the
/// focus of a record or of the payload of an envelope, and `texts` that of condensed events.
/// DuckDB does not hold transitions.
pub open spec fn planned(
    b: Backend,
    command: StorageCommand,
    data: Option<Seq<char>>,
    texts: Seq<CompactTextView>,
) -> Seq<StatementView> {
    match command {
        StorageCommand::RawEvent(e) => seq![raw_event_statement(b, e@, data)],
        StorageCommand::Record(r) => seq![record_statement(b, r@, data)],
        StorageCommand::Envelope(e) => seq![envelope_statement(b, e@, data)],
        StorageCommand::CompactEvents(es) => Seq::new(
            es@.len(),
            |i: int| compact_statement(b, es@[i], texts[i]),
        ),
        StorageCommand::Transition(t) => match b {
            Backend::Sqlite => seq![transition_statement(t@)],
            Backend::DuckDb => Seq::empty(),
        },
        StorageCommand::Shutdown => Seq::empty(),
    }
}

fn value_of_time(b: Backend, t: Timestamp, text: String) -> (r: Value)
    requires
        text@ == t.text(),
    ensures
        r@ == time_value(b, t),
{
    match b {
        Backend::Sqlite => Value::Text(text),
        Backend::DuckDb => Value::Time(t),
    }
}

fn value_of_flag(b: Backend, on: bool) -> (r: Value)
    ensures
        r@ == flag_value(b, on),
{
    match b {
        Backend::Sqlite => if on {
            Value::Int(1)
        } else {
            Value::Int(0)
        },
        Backend::DuckDb => Value::Bool(on),
    }
}

fn value_of_text(s: Option<String>) -> (r: Value)
    ensures
        r@ == text_value(view_opt(s)),
{
    match s {
        Some(s) => Value::Text(s),
        None => Value::Null,
    }
}

fn plan_raw_event(b: Backend, e: &RawEvent, data: Option<String>) -> (r: Statement)
    ensures
        r@ == raw_event_statement(b, e@, view_opt(data)),
{
    broadcast use lemma_views_push;

    let row = write_raw_event(e, String::new());
    let mut values: Vec<Value> = Vec::new();
    values.push(value_of_time(b, e.timestamp(), row.timestamp));
    values.push(Value::Text(row.event_type));
    values.push(value_of_text(data));
    let r = Statement {
        sql: "INSERT INTO raw_events (timestamp, event_type, data) VALUES (?, ?, ?)",
        values,
    };
    assert(r@ =~= raw_event_statement(b, e@, view_opt(data)));
    r
}

fn plan_record(b: Backend, record: &ActivityRecord, focus: Option<String>) -> (r: Statement)
    ensures
        r@ == record_statement(b, record@, view_opt(focus)),
{
    broadcast use lemma_views_push;

    let row = write_record(record, focus);
    let mut values: Vec<Value> = Vec::new();
    values.push(value_of_time(b, record.start_time, row.start_time));
    values.push(
        match record.end_time {
            Some(t) => value_of_time(b, t, t.to_rfc3339()),
            None => Value::Null,
        },
    );
    values.push(Value::Text(row.state));
    values.push(value_of_text(row.focus_info));
    let sql = match b {
        Backend::Sqlite => {
            values.push(value_of_text(row.run_id));
            "INSERT INTO activity_records (start_time, end_time, state, focus_info, run_id) VALUES (?, ?, ?, ?, ?)"
        },
        Backend::DuckDb =>
            "INSERT INTO activity_records (start_time, end_time, state, focus_info) VALUES (?, ?, ?, ?)",
    };
    let r = Statement { sql, values };
    assert(r@ =~= record_statement(b, record@, view_opt(focus)));
    r
}

fn plan_envelope(b: Backend, env: &EventEnvelope, data: Option<String>) -> (r: Statement)
    ensures
        r@ == envelope_statement(b, env@, view_opt(data)),
{
    broadcast use lemma_views_push;

    let row = write_envelope(env, data);
    let ghost view = row@;
    assert(row.event_id is Some);
    let mut values: Vec<Value> = Vec::new();
    values.push(
        match row.event_id {
            Some(id) => Value::Int(id),
            None => Value::Null,
        },
    );
    values.push(value_of_time(b, env.timestamp, row.timestamp));
    values.push(Value::Text(row.source));
    values.push(Value::Text(row.kind));
    values.push(value_of_text(row.payload));
    values.push(value_of_flag(b, env.derived));
    values.push(value_of_flag(b, env.polling));
    values.push(value_of_flag(b, env.sensitive));
    let r = Statement {
        sql:
            "INSERT INTO raw_envelopes (event_id, timestamp, source, kind, payload, derived, polling, sensitive) VALUES (?, ?, ?, ?, ?, ?, ?, ?)",
        values,
    };
    proof {
        crate::storage::rows::law_ids_are_read_back(env.id);
        assert(view == crate::storage::rows::envelope_row(env@, view_opt(data)));
        assert(r@ =~= envelope_statement(b, env@, view_opt(data)));
    }
    r
}

fn span_of(e: &CompactEvent) -> (r: (Timestamp, Timestamp))
    ensures
        r == compact_span(*e),
{
    match e {
        CompactEvent::Scroll(s) => (s.start_time, s.end_time),
        CompactEvent::MouseTrajectory(t) => (t.start_time, t.end_time),
        CompactEvent::Keyboard(k) => (k.start_time, k.end_time),
        CompactEvent::Focus(f) => (f.timestamp, f.timestamp),
    }
}

fn plan_compact(b: Backend, e: &CompactEvent, text: &CompactText) -> (r: Statement)
    ensures
        r@ == compact_statement(b, *e, text@),
{
    broadcast use lemma_views_push;

    let row = write_compact(e, text.payload.clone(), text.pointer.clone());
    assert(view_opt(row.payload) == text@.payload);
    let span = span_of(e);
    let mut values: Vec<Value> = Vec::new();
    values.push(value_of_time(b, span.0, row.start_time));
    values.push(value_of_time(b, span.1, row.end_time));
    values.push(Value::Text(row.kind));
    values.push(value_of_text(row.payload));
    let sql = match b {
        Backend::Sqlite => {
            values.push(value_of_text(row.raw_event_ref));
            "INSERT INTO compact_events (start_time, end_time, kind, payload, raw_event_ref) VALUES (?, ?, ?, ?, ?)"
        },
        Backend::DuckDb => {
            values.push(
                match &text.pointer {
                    Some(s) => Value::Text(s.clone()),
                    None => Value::Text("[]".to_string()),
                },
            );
            "INSERT INTO compact_events (start_time, end_time, kind, payload, raw_event_ids) VALUES (?, ?, ?, ?, ?)"
        },
    };
    let r = Statement { sql, values };
    assert(r@ =~= compact_statement(b, *e, text@));
    r
}

fn plan_transition(t: &Transition) -> (r: Statement)
    ensures
        r@ == transition_statement(t@),
{
    broadcast use lemma_views_push;

    let row = write_transition(t);
    let mut values: Vec<Value> = Vec::new();
    values.push(Value::Text(row.at));
    values.push(Value::Text(row.from_state));
    values.push(Value::Text(row.to_state));
    values.push(value_of_text(row.by_signal));
    values.push(value_of_text(row.run_id));
    let r = Statement {
        sql:
            "INSERT INTO recent_transitions (at, from_state, to_state, by_signal, run_id) VALUES (?, ?, ?, ?, ?)",
        values,
    };
    assert(r@ =~= transition_statement(t@));
    r
}

/// The statements that carry out a command, in order.
pub fn plan_command(
    b: Backend,
    command: &StorageCommand,
    data: Option<String>,
    texts: &Vec<CompactText>,
) -> (r: Vec<Statement>)
    requires
        command matches StorageCommand::CompactEvents(es) ==> texts@.len() == es@.len(),
    ensures
        views(r@) == planned(b, *command, view_opt(data), views(texts@)),
{
    broadcast use lemma_views_push;

    let mut out: Vec<Statement> = Vec::new();
    let ghost whole = planned(b, *command, view_opt(data), views(texts@));
    match command {
        StorageCommand::RawEvent(e) => {
            out.push(plan_raw_event(b, e, data));
        },
        StorageCommand::Record(record) => {
            out.push(plan_record(b, record, data));
        },
        StorageCommand::Envelope(env) => {
            out.push(plan_envelope(b, env, data));
        },
        StorageCommand::CompactEvents(es) => {
            let mut i: usize = 0;
            assert(views(out@) =~= whole.take(0));
            while i < es.len()
                invariant
                    texts@.len() == es@.len(),
                    whole == planned(b, *command, view_opt(data), views(texts@)),
                    *command == StorageCommand::CompactEvents(*es),
                    i <= es.len(),
                    views(out@) == whole.take(i as int),
                decreases es.len() - i,
            {
                proof {
                    lemma_take_succ(whole, i as int);
                    assert(views(texts@)[i as int] == texts@[i as int]@);
                }
                let ghost before = views(out@);
                out.push(plan_compact(b, &es[i], &texts[i]));
                assert(views(out@) =~= before.push(whole[i as int]));
                i += 1;
            }
            proof {
                lemma_take_all(whole);
            }
        },
        StorageCommand::Transition(t) => match b {
            Backend::Sqlite => {
                out.push(plan_transition(t));
            },
            Backend::DuckDb => {},
        },
        StorageCommand::Shutdown => {},
    }
    assert(views(out@) =~= whole);
    out
}

/// Whether the writer reports a statement of the command that failed, and leaves out those after
/// it. With DuckDB it does not for condensed events.
pub fn stops_at_error(b: Backend, command: &StorageCommand) -> (r: bool)
    ensures
        r == !(b == Backend::DuckDb && command is CompactEvents),
{
    match (b, command) {
        (Backend::DuckDb, StorageCommand::CompactEvents(_)) => false,
        _ => true,
    }
}

/// The value holds the instant: as itself, or as its text.
pub open spec fn holds_time(v: ValueView, t: Timestamp) -> bool {
    v == ValueView::Time(t) || v == ValueView::Text(t.text())
}

/// The value holds the flag: as itself, or as a number that is 0 for no.
pub open spec fn holds_flag(v: ValueView, on: bool) -> bool {
    v == ValueView::Bool(on) || v == ValueView::Int(if on {
        1
    } else {
        0
    })
}

/// The value holds the text, or nothing where there is none.
pub open spec fn holds_text(v: ValueView, s: Option<Seq<char>>) -> bool {
    if s is Some {
        v == ValueView::Text(s->0)
    } else {
        v == ValueView::Null
    }
}

/// A record is stored by one statement, whose values hold its start, its end where it has one, the
/// name of its state, and its focus where it had one; SQLite also holds its run.
pub proof fn law_record_is_stored_whole(
    b: Backend,
    r: ActivityRecord,
    data: Option<Seq<char>>,
    texts: Seq<CompactTextView>,
)
    ensures
        ({
            let plan = planned(b, StorageCommand::Record(r), data, texts);
            let v = plan[0].values;
            &&& plan.len() == 1
            &&& v.len() == (if b == Backend::Sqlite {
                5int
            } else {
                4
            })
            &&& holds_time(v[0], r@.start_time)
            &&& r@.end_time is Some ==> holds_time(v[1], r@.end_time->0)
            &&& r@.end_time is None ==> v[1] == ValueView::Null
            &&& v[2] is Text && state_named(v[2]->Text_0) == r@.state
            &&& r@.focus_info is Some ==> holds_text(v[3], data)
            &&& r@.focus_info is None ==> v[3] == ValueView::Null
            &&& b == Backend::Sqlite ==> holds_text(v[4], r@.run_id)
        }),
{
    law_state_names(r@.state);
}

/// An envelope is stored by one statement, whose values hold its number, its time, the names of its
/// source and its kind, its payload and its flags.
pub proof fn law_envelope_is_stored_whole(
    b: Backend,
    e: EventEnvelope,
    data: Option<Seq<char>>,
    texts: Seq<CompactTextView>,
)
    ensures
        ({
            let plan = planned(b, StorageCommand::Envelope(e), data, texts);
            let v = plan[0].values;
            &&& plan.len() == 1
            &&& v.len() == 8
            &&& v[0] is Int && loaded_id(v[0]->Int_0) == e@.id
            &&& holds_time(v[1], e@.timestamp)
            &&& v[2] is Text && source_named(v[2]->Text_0) == e@.source
            &&& v[3] is Text && kind_named(v[3]->Text_0) == e@.kind
            &&& (e@.payload is Keyboard || e@.payload is Mouse || e@.payload is Focus)
                ==> holds_text(v[4], data)
            &&& e@.payload is Empty ==> v[4] == ValueView::Null
            &&& (e@.payload is Lock || e@.payload is Title || e@.payload is State) ==> v[4] is Text
            &&& holds_flag(v[5], e@.derived)
            &&& holds_flag(v[6], e@.polling)
            &&& holds_flag(v[7], e@.sensitive)
        }),
{
    law_ids_are_read_back(e@.id);
    law_source_names(e@.source);
    law_kind_names(e@.kind);
}

/// A raw event is stored by one statement, whose values hold its time, what it is called and its
/// data; keys, the mouse and the focus are called differently.
pub proof fn law_raw_event_is_stored_whole(
    b: Backend,
    e: RawEvent,
    data: Option<Seq<char>>,
    texts: Seq<CompactTextView>,
)
    ensures
        ({
            let plan = planned(b, StorageCommand::RawEvent(e), data, texts);
            let v = plan[0].values;
            &&& plan.len() == 1
            &&& v.len() == 3
            &&& holds_time(v[0], e@.timestamp)
            &&& e@.report is Keyboard ==> v[1] == ValueView::Text("keyboard"@)
            &&& e@.report is Mouse ==> v[1] == ValueView::Text("mouse"@)
            &&& e@.report is Focus ==> v[1] == ValueView::Text("window_focus_change"@)
            &&& holds_text(v[2], data)
        }),
{
}

/// Condensed events are stored by one statement each, in order, whose values hold from when to when
/// each lasted, its kind and its data.
pub proof fn law_condensed_events_are_stored_each(
    b: Backend,
    es: Vec<CompactEvent>,
    data: Option<Seq<char>>,
    texts: Seq<CompactTextView>,
    i: int,
)
    requires
        0 <= i < es@.len(),
        texts.len() == es@.len(),
    ensures
        ({
            let plan = planned(b, StorageCommand::CompactEvents(es), data, texts);
            let v = plan[i].values;
            &&& plan.len() == es@.len()
            &&& v.len() == 5
            &&& match es@[i] {
                CompactEvent::Scroll(s) => holds_time(v[0], s.start_time) && holds_time(
                    v[1],
                    s.end_time,
                ) && v[2] == ValueView::Text("compact:scroll"@),
                CompactEvent::MouseTrajectory(t) => holds_time(v[0], t.start_time) && holds_time(
                    v[1],
                    t.end_time,
                ) && v[2] == ValueView::Text("compact:mouse_traj"@),
                CompactEvent::Keyboard(k) => holds_time(v[0], k.start_time) && holds_time(
                    v[1],
                    k.end_time,
                ) && v[2] == ValueView::Text("compact:keyboard"@),
                CompactEvent::Focus(f) => holds_time(v[0], f.timestamp) && holds_time(
                    v[1],
                    f.timestamp,
                ) && v[2] == ValueView::Text("compact:focus"@),
            }
            &&& holds_text(v[3], texts[i].payload)
        }),
{
}

/// A transition is stored by SQLite alone, by one statement, whose values hold its time, the names
/// of the states before and after it, its signal and its run. The end of the program stores
/// nothing.
pub proof fn law_transition_is_stored_whole(
    t: Transition,
    data: Option<Seq<char>>,
    texts: Seq<CompactTextView>,
)
    ensures
        ({
            let plan = planned(Backend::Sqlite, StorageCommand::Transition(t), data, texts);
            let v = plan[0].values;
            &&& plan.len() == 1
            &&& v.len() == 5
            &&& holds_time(v[0], t@.at)
            &&& v[1] is Text && state_named(v[1]->Text_0) == t@.from
            &&& v[2] is Text && state_named(v[2]->Text_0) == t@.to
            &&& holds_text(v[3], t@.by_signal)
            &&& holds_text(v[4], t@.run_id)
        }),
        planned(Backend::DuckDb, StorageCommand::Transition(t), data, texts).len() == 0,
        planned(Backend::Sqlite, StorageCommand::Shutdown, data, texts).len() == 0,
        planned(Backend::DuckDb, StorageCommand::Shutdown, data, texts).len() == 0,
{
    law_state_names(t@.from);
    law_state_names(t@.to);
}

} // verus!
