//! The rows of the database: how events, records and transitions are written and read back.

use crate::compression::CompactEvent;
use crate::events::model::{
    EnvelopeView, EventEnvelope, EventKind, EventPayload, HintKind, PayloadView, SignalKind,
};
use crate::events::{FocusView, KeyboardEventData, MouseEventData, RawEvent, WindowFocusInfo};
use crate::records::{ActivityRecord, RecordView};
use crate::snapshot::{Transition, TransitionView};
use crate::storage::labels::{
    kind_label, kind_named, label_of_kind, label_of_source, label_of_state, law_kind_names,
    law_source_names, law_state_names, parse_kind_label, parse_source_label, parse_state_label,
    source_label, source_named, state_label, state_named,
};
use crate::text::{contains, found_at, has_part};
use crate::time::{denotes, lemma_same_instant, rfc3339_instant, Timestamp};
use crate::views::{view_opt, views};
use vstd::prelude::*;

verus! {

/// The text as JSON, by `serde_json::to_string`.
pub uninterp spec fn json_text(s: Seq<char>) -> Seq<char>;

/// A number and a text as a JSON array, by `serde_json::to_string`.
pub uninterp spec fn json_title(window_id: u32, title: Seq<char>) -> Seq<char>;

/// The number and the text in a JSON array, by `serde_json::from_str`.
pub uninterp spec fn title_in_json(text: Seq<char>) -> Option<(u32, Seq<char>)>;

/// Two texts as a JSON array, by `serde_json::to_string`.
pub uninterp spec fn json_pair(a: Seq<char>, b: Seq<char>) -> Seq<char>;

/// The two texts in a JSON array, by `serde_json::from_str`.
pub uninterp spec fn pair_in_json(text: Seq<char>) -> Option<(Seq<char>, Seq<char>)>;

/// Writes a text with `serde_json::to_string`, which never fails for a text.
#[verifier::external_body]
fn write_json_text(s: &str) -> (r: Option<String>)
    ensures
        r is Some,
        r->0@ == json_text(s@),
{
    serde_json::to_string(s).ok()
}

/// Writes a number and a text as an array with `serde_json::to_string`, which never fails for
/// these. `serde_json::from_str` reads both back.
#[verifier::external_body]
fn write_json_title(window_id: u32, title: &str) -> (r: Option<String>)
    ensures
        r is Some,
        r->0@ == json_title(window_id, title@),
        title_in_json(r->0@) == Some((window_id, title@)),
{
    serde_json::to_string(&(window_id, title)).ok()
}

/// Reads a number and a text from an array with `serde_json::from_str`.
#[verifier::external_body]
fn read_json_title(text: &str) -> (r: Option<(u32, String)>)
    ensures
        title_in_json(text@) == match r {
            Some(t) => Some((t.0, t.1@)),
            None => None,
        },
{
    serde_json::from_str::<(u32, String)>(text).ok()
}

/// Writes two texts as an array with `serde_json::to_string`, which never fails for these.
/// `serde_json::from_str` reads both back.
#[verifier::external_body]
fn write_json_pair(a: &str, b: &str) -> (r: Option<String>)
    ensures
        r is Some,
        r->0@ == json_pair(a@, b@),
        pair_in_json(r->0@) == Some((a@, b@)),
{
    serde_json::to_string(&(a, b)).ok()
}

/// Reads two texts from an array with `serde_json::from_str`.
#[verifier::external_body]
fn read_json_pair(text: &str) -> (r: Option<(String, String)>)
    ensures
        pair_in_json(text@) == match r {
            Some(t) => Some((t.0@, t.1@)),
            None => None,
        },
{
    serde_json::from_str::<(String, String)>(text).ok()
}

/// A number as the database holds it: what is too large for a signed number is stored as a
/// negative one.
pub open spec fn stored_id(id: u64) -> int {
    if id > i64::MAX {
        id - 0x1_0000_0000_0000_0000
    } else {
        id as int
    }
}

/// The number that the database holds as `id`.
pub open spec fn loaded_id(id: int) -> int {
    if id < 0 {
        id + 0x1_0000_0000_0000_0000
    } else {
        id
    }
}

pub(crate) fn to_stored(id: u64) -> (r: i64)
    ensures
        r == stored_id(id),
{
    if id > i64::MAX as u64 {
        (id as i128 - 0x1_0000_0000_0000_0000) as i64
    } else {
        id as i64
    }
}

pub(crate) fn from_stored(id: i64) -> (r: u64)
    ensures
        r == loaded_id(id as int),
{
    if id < 0 {
        (id as i128 + 0x1_0000_0000_0000_0000) as u64
    } else {
        id as u64
    }
}

/// Every number is read back from what the database holds.
pub proof fn law_ids_are_read_back(id: u64)
    ensures
        i64::MIN <= stored_id(id) <= i64::MAX,
        loaded_id(stored_id(id)) == id,
{
}

/// A row of a stored envelope.
#[derive(Debug)]
pub struct EnvelopeRow {
    pub event_id: Option<i64>,
    pub timestamp: String,
    pub source: String,
    pub kind: String,
    pub payload: Option<String>,
    pub derived: i64,
    pub polling: i64,
    pub sensitive: i64,
}

#[verifier::ext_equal]
pub struct EnvelopeRowView {
    pub event_id: Option<i64>,
    pub timestamp: Seq<char>,
    pub source: Seq<char>,
    pub kind: Seq<char>,
    pub payload: Option<Seq<char>>,
    pub derived: i64,
    pub polling: i64,
    pub sensitive: i64,
}

impl View for EnvelopeRow {
    type V = EnvelopeRowView;

    open spec fn view(&self) -> EnvelopeRowView {
        EnvelopeRowView {
            event_id: self.event_id,
            timestamp: self.timestamp@,
            source: self.source@,
            kind: self.kind@,
            payload: view_opt(self.payload),
            derived: self.derived,
            polling: self.polling,
            sensitive: self.sensitive,
        }
    }
}

/// A truth value as the database holds it.
pub open spec fn flag(b: bool) -> i64 {
    if b {
        1
    } else {
        0
    }
}

/// The text of a payload. What a key press, a mouse event or a focus is in JSON is given.
pub open spec fn payload_text(p: PayloadView, data: Option<Seq<char>>) -> Option<Seq<char>> {
    match p {
        PayloadView::Keyboard(_) => data,
        PayloadView::Mouse(_) => data,
        PayloadView::Focus(_) => data,
        PayloadView::Lock { reason } => Some(json_text(reason)),
        PayloadView::Title { window_id, title } => Some(json_title(window_id, title)),
        PayloadView::State { from, to } => Some(json_pair(state_label(from), state_label(to))),
        PayloadView::Empty => None,
    }
}

/// The row of an envelope.
pub open spec fn envelope_row(e: EnvelopeView, data: Option<Seq<char>>) -> EnvelopeRowView {
    EnvelopeRowView {
        event_id: Some(stored_id(e.id) as i64),
        timestamp: e.timestamp.text(),
        source: source_label(e.source),
        kind: kind_label(e.kind),
        payload: payload_text(e.payload, data),
        derived: flag(e.derived),
        polling: flag(e.polling),
        sensitive: flag(e.sensitive),
    }
}

/// The reading of a payload's text undoes its writing, as far as this library writes it.
pub open spec fn payload_reads_back(p: PayloadView) -> bool {
    match p {
        PayloadView::Title { window_id, title } => title_in_json(json_title(window_id, title))
            == Some((window_id, title)),
        PayloadView::State { from, to } => pair_in_json(
            json_pair(state_label(from), state_label(to)),
        ) == Some((state_label(from), state_label(to))),
        _ => true,
    }
}

fn to_flag(b: bool) -> (r: i64)
    ensures
        r == flag(b),
{
    if b {
        1
    } else {
        0
    }
}

/// Writes an envelope as a row. `data` is the JSON of a key press, a mouse event or a focus; it is
/// not used for other payloads.
pub fn write_envelope(env: &EventEnvelope, data: Option<String>) -> (r: EnvelopeRow)
    ensures
        r@ == envelope_row(env@, view_opt(data)),
        payload_reads_back(env@.payload),
        env.timestamp.in_common_years() ==> is_instant_of(r@.timestamp, env.timestamp),
        payload_fits_kind(env@.payload, env@.kind) ==> payload_plan(r@.kind, r@.payload)
            == payload_back(env@.payload, view_opt(data)),
        env.timestamp.in_common_years() ==> forall|at: Timestamp, payload: PayloadView|
            is_instant_of(r@.timestamp, at) ==> #[trigger] envelope_of_row(r@, at, payload) == (
            EnvelopeView { payload, ..env@ }),
{
    let ghost given = view_opt(data);
    let payload = match &env.payload {
        EventPayload::Keyboard(_) => data,
        EventPayload::Mouse(_) => data,
        EventPayload::Focus(_) => data,
        EventPayload::Lock { reason } => write_json_text(reason.as_str()),
        EventPayload::Title { window_id, title } => write_json_title(*window_id, title.as_str()),
        EventPayload::State { from, to } => write_json_pair(
            label_of_state(*from),
            label_of_state(*to),
        ),
        EventPayload::Empty => None,
    };
    let row = EnvelopeRow {
        event_id: Some(to_stored(env.id)),
        timestamp: env.timestamp.to_rfc3339(),
        source: label_of_source(env.source).to_string(),
        kind: label_of_kind(env.kind).to_string(),
        payload,
        derived: to_flag(env.derived),
        polling: to_flag(env.polling),
        sensitive: to_flag(env.sensitive),
    };
    proof {
        assert(row@ == envelope_row(env@, given));
        if payload_fits_kind(env@.payload, env@.kind) {
            law_envelopes_are_read_back(env@, given, env.timestamp, env@.payload);
        }
        law_kind_names(env.kind);
        law_source_names(env.source);
        law_ids_are_read_back(env.id);
        if env.timestamp.in_common_years() {
            assert forall|at: Timestamp, payload: PayloadView|
                is_instant_of(row@.timestamp, at) implies #[trigger] envelope_of_row(
                row@,
                at,
                payload,
            ) == (EnvelopeView { payload, ..env@ }) by {
                lemma_same_instant(at, env.timestamp);
            }
        }
    }
    row
}

/// What the text of a payload stands for: a key press, a mouse event or a focus in JSON, or a
/// payload that is known.
#[derive(Debug)]
pub enum PayloadText {
    Keyboard(String),
    Mouse(String),
    Focus(String),
    Known(EventPayload),
}

#[verifier::ext_equal]
pub enum PayloadTextView {
    Keyboard(Seq<char>),
    Mouse(Seq<char>),
    Focus(Seq<char>),
    Known(PayloadView),
}

impl View for PayloadText {
    type V = PayloadTextView;

    open spec fn view(&self) -> PayloadTextView {
        match self {
            PayloadText::Keyboard(js) => PayloadTextView::Keyboard(js@),
            PayloadText::Mouse(js) => PayloadTextView::Mouse(js@),
            PayloadText::Focus(js) => PayloadTextView::Focus(js@),
            PayloadText::Known(p) => PayloadTextView::Known(p@),
        }
    }
}

/// What the text of a payload stands for, under a kind of the given name. The reason of a lock is
/// the text itself; a text that cannot be read stands for no payload.
pub open spec fn payload_plan(label: Seq<char>, payload: Option<Seq<char>>) -> PayloadTextView {
    match payload {
        None => PayloadTextView::Known(PayloadView::Empty),
        Some(js) => if kind_named(label) == EventKind::Signal(SignalKind::KeyboardInput) {
            PayloadTextView::Keyboard(js)
        } else if kind_named(label) == EventKind::Signal(SignalKind::MouseInput) {
            PayloadTextView::Mouse(js)
        } else if has_part(label, "lock"@) {
            PayloadTextView::Known(PayloadView::Lock { reason: js })
        } else if has_part(label, "title"@) {
            match title_in_json(js) {
                Some((window_id, title)) => PayloadTextView::Known(
                    PayloadView::Title { window_id, title },
                ),
                None => PayloadTextView::Known(PayloadView::Empty),
            }
        } else if has_part(label, "state_changed"@) {
            match pair_in_json(js) {
                Some((from, to)) => PayloadTextView::Known(
                    PayloadView::State { from: state_named(from), to: state_named(to) },
                ),
                None => PayloadTextView::Known(PayloadView::Empty),
            }
        } else {
            PayloadTextView::Focus(js)
        },
    }
}

/// What the text of a payload stands for, under a kind of the given name.
pub fn plan_payload(label: &str, payload: Option<String>) -> (r: PayloadText)
    ensures
        r@ == payload_plan(label@, view_opt(payload)),
{
    match payload {
        None => PayloadText::Known(EventPayload::Empty),
        Some(js) => {
            let kind = parse_kind_label(label);
            if kind == EventKind::Signal(SignalKind::KeyboardInput) {
                PayloadText::Keyboard(js)
            } else if kind == EventKind::Signal(SignalKind::MouseInput) {
                PayloadText::Mouse(js)
            } else if contains(label, "lock") {
                PayloadText::Known(EventPayload::Lock { reason: js })
            } else if contains(label, "title") {
                match read_json_title(js.as_str()) {
                    Some((window_id, title)) => PayloadText::Known(
                        EventPayload::Title { window_id, title },
                    ),
                    None => PayloadText::Known(EventPayload::Empty),
                }
            } else if contains(label, "state_changed") {
                match read_json_pair(js.as_str()) {
                    Some((from, to)) => PayloadText::Known(
                        EventPayload::State {
                            from: parse_state_label(from.as_str()),
                            to: parse_state_label(to.as_str()),
                        },
                    ),
                    None => PayloadText::Known(EventPayload::Empty),
                }
            } else {
                PayloadText::Focus(js)
            }
        },
    }
}

/// A payload whose JSON was read, or could not be read.
#[derive(Debug)]
pub enum ParsedPayload {
    Keyboard(Option<KeyboardEventData>),
    Mouse(Option<MouseEventData>),
    Focus(Option<WindowFocusInfo>),
    Known(EventPayload),
}

/// The payload that was read; what could not be read is no payload.
pub open spec fn parsed_view(p: ParsedPayload) -> PayloadView {
    match p {
        ParsedPayload::Keyboard(Some(data)) => PayloadView::Keyboard(data@),
        ParsedPayload::Mouse(Some(data)) => PayloadView::Mouse(data),
        ParsedPayload::Focus(Some(info)) => PayloadView::Focus(info@),
        ParsedPayload::Known(payload) => payload@,
        _ => PayloadView::Empty,
    }
}

pub fn payload_of(p: ParsedPayload) -> (r: EventPayload)
    ensures
        r@ == parsed_view(p),
{
    match p {
        ParsedPayload::Keyboard(Some(data)) => EventPayload::Keyboard(data),
        ParsedPayload::Mouse(Some(data)) => EventPayload::Mouse(data),
        ParsedPayload::Focus(Some(info)) => EventPayload::Focus(info),
        ParsedPayload::Known(payload) => payload,
        _ => EventPayload::Empty,
    }
}

/// A row that cannot be read, and why.
#[derive(Debug)]
pub enum ReadError {
    InvalidTimestamp(String),
    InvalidStartTime(String),
    InvalidEndTime(String),
}

#[verifier::ext_equal]
pub enum ReadErrorView {
    InvalidTimestamp(Seq<char>),
    InvalidStartTime(Seq<char>),
    InvalidEndTime(Seq<char>),
}

impl View for ReadError {
    type V = ReadErrorView;

    open spec fn view(&self) -> ReadErrorView {
        match self {
            ReadError::InvalidTimestamp(cause) => ReadErrorView::InvalidTimestamp(cause@),
            ReadError::InvalidStartTime(cause) => ReadErrorView::InvalidStartTime(cause@),
            ReadError::InvalidEndTime(cause) => ReadErrorView::InvalidEndTime(cause@),
        }
    }
}

impl ReadErrorView {
    /// The words in which the time was refused.
    pub open spec fn cause(self) -> Seq<char> {
        match self {
            ReadErrorView::InvalidTimestamp(cause) => cause,
            ReadErrorView::InvalidStartTime(cause) => cause,
            ReadErrorView::InvalidEndTime(cause) => cause,
        }
    }
}

impl ReadError {
    /// The error in words: for a record, which of its times it is; else the words in which the
    /// time was refused.
    pub fn message(&self) -> (r: &str)
        ensures
            r@ == match self@ {
                ReadErrorView::InvalidTimestamp(cause) => cause,
                ReadErrorView::InvalidStartTime(_) => "Invalid start_time in DB"@,
                ReadErrorView::InvalidEndTime(_) => "Invalid end_time in DB"@,
            },
    {
        match self {
            ReadError::InvalidTimestamp(cause) => cause.as_str(),
            ReadError::InvalidStartTime(_) => "Invalid start_time in DB",
            ReadError::InvalidEndTime(_) => "Invalid end_time in DB",
        }
    }

    /// The words in which the time was refused.
    pub fn cause(&self) -> (r: &str)
        ensures
            r@ == self@.cause(),
    {
        match self {
            ReadError::InvalidTimestamp(cause) => cause.as_str(),
            ReadError::InvalidStartTime(cause) => cause.as_str(),
            ReadError::InvalidEndTime(cause) => cause.as_str(),
        }
    }
}

/// The envelope of a row, once its payload was read. `at` is the instant of its timestamp.
pub open spec fn envelope_of_row(
    row: EnvelopeRowView,
    at: Timestamp,
    payload: PayloadView,
) -> EnvelopeView {
    EnvelopeView {
        id: (match row.event_id {
            Some(id) => loaded_id(id as int),
            None => 0,
        }) as u64,
        timestamp: at,
        source: source_named(row.source),
        kind: kind_named(row.kind),
        payload,
        derived: row.derived != 0,
        polling: row.polling != 0,
        sensitive: row.sensitive != 0,
    }
}

/// The instant is what the text denotes.
pub open spec fn is_instant_of(text: Seq<char>, t: Timestamp) -> bool {
    denotes(text, t.secs(), t.nanos())
}

/// The text denotes no instant, and is refused as the error says.
pub open spec fn is_refusal_of(text: Seq<char>, e: ReadErrorView) -> bool {
    match rfc3339_instant(text) {
        Ok(_) => false,
        Err(cause) => e == ReadErrorView::InvalidTimestamp(cause),
    }
}

/// Makes an envelope of the columns of a row whose payload was read.
pub fn envelope_from_columns(
    event_id: Option<i64>,
    timestamp: Timestamp,
    source: &str,
    kind: &str,
    payload: ParsedPayload,
    derived: bool,
    polling: bool,
    sensitive: bool,
) -> (r: EventEnvelope)
    ensures
        r@ == (EnvelopeView {
            id: (match event_id {
                Some(id) => loaded_id(id as int),
                None => 0,
            }) as u64,
            timestamp,
            source: source_named(source@),
            kind: kind_named(kind@),
            payload: parsed_view(payload),
            derived,
            polling,
            sensitive,
        }),
{
    let id: u64 = match event_id {
        Some(id) => from_stored(id),
        None => 0,
    };
    EventEnvelope {
        id,
        timestamp,
        source: parse_source_label(source),
        kind: parse_kind_label(kind),
        payload: payload_of(payload),
        derived,
        polling,
        sensitive,
    }
}

/// Reads an envelope from a row whose payload was read.
pub fn read_envelope(row: &EnvelopeRow, payload: ParsedPayload) -> (r: Result<
    EventEnvelope,
    ReadError,
>)
    ensures
        match r {
            Ok(env) => is_instant_of(row@.timestamp, env.timestamp) && env@ == envelope_of_row(
                row@,
                env.timestamp,
                parsed_view(payload),
            ),
            Err(e) => is_refusal_of(row@.timestamp, e@),
        },
{
    let timestamp = match Timestamp::parse_from_rfc3339(row.timestamp.as_str()) {
        Ok(t) => t,
        Err(cause) => return Err(ReadError::InvalidTimestamp(cause)),
    };
    Ok(
        envelope_from_columns(
            row.event_id,
            timestamp,
            row.source.as_str(),
            row.kind.as_str(),
            payload,
            row.derived != 0,
            row.polling != 0,
            row.sensitive != 0,
        ),
    )
}

/// The envelopes are those of the rows, in order.
pub open spec fn envelopes_match(
    rows: Seq<EnvelopeRowView>,
    payloads: Seq<ParsedPayload>,
    envs: Seq<EventEnvelope>,
) -> bool {
    envs.len() == rows.len() && forall|i: int|
        0 <= i < envs.len() ==> is_instant_of(rows[i].timestamp, (#[trigger] envs[i]).timestamp)
            && envs[i]@ == envelope_of_row(rows[i], envs[i].timestamp, parsed_view(payloads[i]))
}

/// Some row has a timestamp that cannot be read.
pub open spec fn some_unreadable(rows: Seq<EnvelopeRowView>) -> bool {
    exists|i: int| 0 <= i < rows.len() && rfc3339_instant((#[trigger] rows[i]).timestamp) is Err
}

/// The row at `i` is the first with a timestamp that cannot be read.
pub open spec fn first_unreadable(rows: Seq<EnvelopeRowView>, i: int) -> bool {
    &&& 0 <= i < rows.len()
    &&& rfc3339_instant(rows[i].timestamp) is Err
    &&& forall|j: int| 0 <= j < i ==> rfc3339_instant((#[trigger] rows[j]).timestamp) is Ok
}

/// Reads the envelopes of the rows, whose payloads were read, in order. One row that cannot be
/// read fails the whole; the first such row says why.
pub fn read_envelopes(rows: &Vec<EnvelopeRow>, payloads: Vec<ParsedPayload>) -> (r: Result<
    Vec<EventEnvelope>,
    ReadError,
>)
    requires
        rows.len() == payloads.len(),
    ensures
        match r {
            Ok(envs) => !some_unreadable(views(rows@)) && envelopes_match(
                views(rows@),
                payloads@,
                envs@,
            ),
            Err(e) => exists|i: int| #[trigger]
                first_unreadable(views(rows@), i) && is_refusal_of(views(rows@)[i].timestamp, e@),
        },
{
    let ghost given = payloads@;
    let ghost all = views(rows@);
    let mut payloads = payloads;
    let mut rev: Vec<ParsedPayload> = Vec::new();
    while payloads.len() > 0
        invariant
            payloads@ == given.take(payloads@.len() as int),
            payloads@.len() + rev@.len() == given.len(),
            forall|i: int| 0 <= i < rev@.len() ==> rev@[i] == given[given.len() - 1 - i],
        decreases payloads.len(),
    {
        let p = payloads.pop().unwrap();
        rev.push(p);
        assert(payloads@ =~= given.take(payloads@.len() as int));
    }
    let mut out: Vec<EventEnvelope> = Vec::new();
    let mut i: usize = 0;
    while i < rows.len()
        invariant
            all == views(rows@),
            rows.len() == given.len(),
            i <= rows.len(),
            rev@.len() == given.len() - i,
            forall|j: int| 0 <= j < rev@.len() ==> rev@[j] == given[given.len() - 1 - j],
            out.len() == i,
            forall|j: int|
                0 <= j < i ==> is_instant_of(all[j].timestamp, (#[trigger] out@[j]).timestamp)
                    && out@[j]@ == envelope_of_row(
                    all[j],
                    out@[j].timestamp,
                    parsed_view(given[j]),
                ),
            forall|j: int| 0 <= j < i ==> rfc3339_instant((#[trigger] all[j]).timestamp) is Ok,
        decreases rows.len() - i,
    {
        let p = rev.pop().unwrap();
        assert(p == given[i as int]);
        assert(all[i as int] == rows@[i as int]@);
        match read_envelope(&rows[i], p) {
            Ok(env) => {
                out.push(env);
            },
            Err(e) => {
                assert(first_unreadable(all, i as int));
                return Err(e);
            },
        }
        i += 1;
    }
    Ok(out)
}

/// A key press, a mouse event or a focus belongs to the kind under which it is stored.
pub open spec fn payload_fits_kind(p: PayloadView, k: EventKind) -> bool {
    match p {
        PayloadView::Keyboard(_) => k == EventKind::Signal(SignalKind::KeyboardInput),
        PayloadView::Mouse(_) => k == EventKind::Signal(SignalKind::MouseInput),
        PayloadView::Focus(_) => k == EventKind::Signal(SignalKind::AppChanged) || k
            == EventKind::Signal(SignalKind::WindowChanged) || k == EventKind::Hint(
            HintKind::FocusChanged,
        ),
        PayloadView::Lock { reason } => k == EventKind::Signal(SignalKind::LockStart) || k
            == EventKind::Signal(SignalKind::LockEnd),
        PayloadView::Title { window_id, title } => k == EventKind::Hint(HintKind::TitleChanged),
        PayloadView::State { from, to } => k == EventKind::Hint(HintKind::StateChanged),
        PayloadView::Empty => true,
    }
}

/// What is read of a stored payload: the payload itself, but that the reason of a lock comes back
/// in JSON, and that what was given as JSON is read from that JSON again.
pub open spec fn payload_back(p: PayloadView, data: Option<Seq<char>>) -> PayloadTextView {
    match (p, data) {
        (PayloadView::Keyboard(_), Some(js)) => PayloadTextView::Keyboard(js),
        (PayloadView::Mouse(_), Some(js)) => PayloadTextView::Mouse(js),
        (PayloadView::Focus(_), Some(js)) => PayloadTextView::Focus(js),
        (PayloadView::Keyboard(_), None) => PayloadTextView::Known(PayloadView::Empty),
        (PayloadView::Mouse(_), None) => PayloadTextView::Known(PayloadView::Empty),
        (PayloadView::Focus(_), None) => PayloadTextView::Known(PayloadView::Empty),
        (PayloadView::Lock { reason }, _) => PayloadTextView::Known(
            PayloadView::Lock { reason: json_text(reason) },
        ),
        (q, _) => PayloadTextView::Known(q),
    }
}

/// None of the characters from `from` up to `n` is `c`.
spec fn lacks(s: Seq<char>, c: char, from: int, n: int) -> bool
    decreases n - from,
{
    n <= from || (s[n - 1] != c && lacks(s, c, from, n - 1))
}

proof fn lemma_lacks(s: Seq<char>, c: char, from: int, n: int)
    requires
        lacks(s, c, from, n),
    ensures
        forall|i: int| from <= i < n ==> s[i] != c,
    decreases n - from,
{
    if n > from {
        lemma_lacks(s, c, from, n - 1);
    }
}

/// A text does not stand in one that lacks one of its characters.
proof fn lemma_not_part(whole: Seq<char>, part: Seq<char>, j: int)
    requires
        0 <= j < part.len(),
        lacks(whole, part[j], 0, whole.len() as int),
    ensures
        !has_part(whole, part),
{
    lemma_lacks(whole, part[j], 0, whole.len() as int);
    assert forall|at: int| !found_at(whole, part, at) by {
        if found_at(whole, part, at) {
            assert(whole.subrange(at, at + part.len())[j] == whole[at + j]);
        }
    }
}

proof fn lemma_focus_labels(k: EventKind)
    requires
        k == EventKind::Signal(SignalKind::AppChanged) || k == EventKind::Signal(
            SignalKind::WindowChanged,
        ) || k == EventKind::Hint(HintKind::FocusChanged),
    ensures
        !has_part(kind_label(k), "lock"@),
        !has_part(kind_label(k), "title"@),
        !has_part(kind_label(k), "state_changed"@),
{
    reveal_strlit("lock");
    reveal_strlit("title");
    reveal_strlit("state_changed");
    reveal_strlit("signal:app_changed");
    reveal_strlit("signal:window_changed");
    reveal_strlit("hint:focus_changed");
    reveal_with_fuel(lacks, 24);
    let label = kind_label(k);
    lemma_not_part(label, "lock"@, 3);
    if k == EventKind::Hint(HintKind::FocusChanged) {
        lemma_not_part(label, "title"@, 3);
        let part = "state_changed"@;
        assert(lacks(label, 't', 0, 3));
        assert(lacks(label, 't', 4, 18));
        lemma_lacks(label, 't', 0, 3);
        lemma_lacks(label, 't', 4, 18);
        assert forall|at: int| !found_at(label, part, at) by {
            if found_at(label, part, at) {
                assert(label.subrange(at, at + part.len())[1] == label[at + 1]);
                assert(label.subrange(at, at + part.len())[3] == label[at + 3]);
            }
        }
    } else {
        lemma_not_part(label, "title"@, 0);
        lemma_not_part(label, "state_changed"@, 1);
    }
}

proof fn lemma_other_labels()
    ensures
        has_part("signal:lock_start"@, "lock"@),
        has_part("signal:lock_end"@, "lock"@),
        !has_part("hint:title_changed"@, "lock"@),
        has_part("hint:title_changed"@, "title"@),
        !has_part("hint:state_changed"@, "lock"@),
        !has_part("hint:state_changed"@, "title"@),
        has_part("hint:state_changed"@, "state_changed"@),
{
    reveal_strlit("lock");
    reveal_strlit("title");
    reveal_strlit("state_changed");
    reveal_strlit("signal:lock_start");
    reveal_strlit("signal:lock_end");
    reveal_strlit("hint:title_changed");
    reveal_strlit("hint:state_changed");
    reveal_with_fuel(lacks, 24);
    assert("signal:lock_start"@.subrange(7, 11) =~= "lock"@);
    assert(found_at("signal:lock_start"@, "lock"@, 7));
    assert("signal:lock_end"@.subrange(7, 11) =~= "lock"@);
    assert(found_at("signal:lock_end"@, "lock"@, 7));
    lemma_not_part("hint:title_changed"@, "lock"@, 3);
    assert("hint:title_changed"@.subrange(5, 10) =~= "title"@);
    assert(found_at("hint:title_changed"@, "title"@, 5));
    lemma_not_part("hint:state_changed"@, "lock"@, 3);
    lemma_not_part("hint:state_changed"@, "title"@, 3);
    assert("hint:state_changed"@.subrange(5, 18) =~= "state_changed"@);
    assert(found_at("hint:state_changed"@, "state_changed"@, 5));
}

/// An envelope whose payload belongs to its kind is read back from its row, once what was given
/// as JSON was read: with its number, source, kind and flags, and its payload. Only the reason
/// of a lock comes back in JSON.
pub proof fn law_envelopes_are_read_back(
    e: EnvelopeView,
    data: Option<Seq<char>>,
    at: Timestamp,
    payload: PayloadView,
)
    requires
        payload_fits_kind(e.payload, e.kind),
        payload_reads_back(e.payload),
    ensures
        payload_plan(envelope_row(e, data).kind, envelope_row(e, data).payload) == payload_back(
            e.payload,
            data,
        ),
        envelope_of_row(envelope_row(e, data), at, payload) == (EnvelopeView {
            timestamp: at,
            payload,
            ..e
        }),
{
    law_kind_names(e.kind);
    law_source_names(e.source);
    law_ids_are_read_back(e.id);
    lemma_other_labels();
    match e.payload {
        PayloadView::Focus(_) => {
            lemma_focus_labels(e.kind);
        },
        PayloadView::State { from, to } => {
            law_state_names(from);
            law_state_names(to);
        },
        _ => {},
    }
}

/// A row of a stored record.
#[derive(Debug)]
pub struct RecordRow {
    pub id: i64,
    pub start_time: String,
    pub end_time: Option<String>,
    pub state: String,
    pub focus_info: Option<String>,
    pub run_id: Option<String>,
}

#[verifier::ext_equal]
pub struct RecordRowView {
    pub start_time: Seq<char>,
    pub end_time: Option<Seq<char>>,
    pub state: Seq<char>,
    pub focus_info: Option<Seq<char>>,
    pub run_id: Option<Seq<char>>,
}

impl View for RecordRow {
    type V = RecordRowView;

    open spec fn view(&self) -> RecordRowView {
        RecordRowView {
            start_time: self.start_time@,
            end_time: view_opt(self.end_time),
            state: self.state@,
            focus_info: view_opt(self.focus_info),
            run_id: view_opt(self.run_id),
        }
    }
}

/// The row of a record. What its focus is in JSON is given.
pub open spec fn record_row(r: RecordView, focus: Option<Seq<char>>) -> RecordRowView {
    RecordRowView {
        start_time: r.start_time.text(),
        end_time: match r.end_time {
            Some(t) => Some(t.text()),
            None => None,
        },
        state: state_label(r.state),
        focus_info: if r.focus_info is Some {
            focus
        } else {
            None
        },
        run_id: r.run_id,
    }
}

/// The times of a record lie in years of four digits.
pub open spec fn has_common_times(r: RecordView) -> bool {
    r.start_time.in_common_years() && (r.end_time matches Some(t) ==> t.in_common_years())
}

/// What comes back of a record that was stored under the number `id`, and of whose focus `focus`
/// was read: everything but how many events it had, and which.
pub open spec fn record_back(r: RecordView, id: i64, focus: Option<FocusView>) -> RecordView {
    RecordView {
        record_id: loaded_id(id as int) as u64,
        focus_info: focus,
        event_count: 0,
        triggering_events: Seq::empty(),
        ..r
    }
}

/// Writes a record as a row; the database numbers it. `focus` is the JSON of its focus.
pub fn write_record(record: &ActivityRecord, focus: Option<String>) -> (r: RecordRow)
    ensures
        r@ == record_row(record@, view_opt(focus)),
        record.start_time.in_common_years() ==> is_instant_of(r@.start_time, record.start_time),
        record.end_time matches Some(t) ==> (t.in_common_years() ==> is_instant_of(t.text(), t)),
        has_common_times(record@) ==> record_error(r@) is None && forall|
            id: i64,
            parsed: Option<FocusView>,
            back: RecordView,
        | #[trigger]
            is_record_of(r@, id, parsed, back) ==> back == record_back(record@, id, parsed),
{
    let ghost given = view_opt(focus);
    let end_time = match &record.end_time {
        Some(t) => Some(t.to_rfc3339()),
        None => None,
    };
    let row = RecordRow {
        id: 0,
        start_time: record.start_time.to_rfc3339(),
        end_time,
        state: label_of_state(record.state).to_string(),
        focus_info: if record.focus_info.is_some() {
            focus
        } else {
            None
        },
        run_id: record.run_id.clone(),
    };
    proof {
        assert(row@ == record_row(record@, given));
        if has_common_times(record@) {
            assert forall|id: i64, parsed: Option<FocusView>, back: RecordView| #[trigger]
                is_record_of(row@, id, parsed, back) implies back == record_back(
                record@,
                id,
                parsed,
            ) by {
                law_state_names(record.state);
                lemma_same_instant(back.start_time, record.start_time);
                if record.end_time is Some {
                    lemma_same_instant(back.end_time->0, record.end_time->0);
                }
                assert(back =~= record_back(record@, id, parsed));
            }
        }
    }
    row
}

/// What stops the reading of a row, if anything does.
pub open spec fn record_error(row: RecordRowView) -> Option<ReadErrorView> {
    match rfc3339_instant(row.start_time) {
        Err(cause) => Some(ReadErrorView::InvalidStartTime(cause)),
        Ok(_) => match row.end_time {
            Some(text) => match rfc3339_instant(text) {
                Err(cause) => Some(ReadErrorView::InvalidEndTime(cause)),
                Ok(_) => None,
            },
            None => None,
        },
    }
}

/// The record is what the row holds, numbered `id`, with the focus that was read of it.
pub open spec fn is_record_of(
    row: RecordRowView,
    id: i64,
    focus: Option<FocusView>,
    r: RecordView,
) -> bool {
    &&& is_instant_of(row.start_time, r.start_time)
    &&& match (row.end_time, r.end_time) {
        (Some(text), Some(t)) => is_instant_of(text, t),
        (None, None) => true,
        _ => false,
    }
    &&& r.record_id == loaded_id(id as int)
    &&& r.run_id == row.run_id
    &&& r.state == state_named(row.state)
    &&& r.focus_info == focus
    &&& r.event_count == 0
    &&& r.triggering_events == Seq::<u64>::empty()
}

/// Makes a record of the columns of a row. A row without a number is numbered 0.
pub fn record_from_columns(
    id: Option<i64>,
    start_time: Timestamp,
    end_time: Option<Timestamp>,
    state: &str,
    focus: Option<WindowFocusInfo>,
    run_id: Option<String>,
) -> (r: ActivityRecord)
    ensures
        r@ == (RecordView {
            record_id: (match id {
                Some(id) => loaded_id(id as int),
                None => 0,
            }) as u64,
            run_id: view_opt(run_id),
            start_time,
            end_time,
            state: state_named(state@),
            focus_info: view_opt(focus),
            event_count: 0,
            triggering_events: Seq::empty(),
        }),
{
    let record_id: u64 = match id {
        Some(id) => from_stored(id),
        None => 0,
    };
    ActivityRecord {
        record_id,
        run_id,
        start_time,
        end_time,
        state: parse_state_label(state),
        focus_info: focus,
        event_count: 0,
        triggering_events: Vec::new(),
    }
}

/// Reads a record from a row. `focus` is what was read of the JSON of its focus.
pub fn read_record(row: &RecordRow, focus: Option<WindowFocusInfo>) -> (r: Result<
    ActivityRecord,
    ReadError,
>)
    ensures
        match r {
            Ok(record) => record_error(row@) is None && is_record_of(
                row@,
                row.id,
                view_opt(focus),
                record@,
            ),
            Err(e) => record_error(row@) == Some(e@),
        },
{
    let start_time = match Timestamp::parse_from_rfc3339(row.start_time.as_str()) {
        Ok(t) => t,
        Err(cause) => return Err(ReadError::InvalidStartTime(cause)),
    };
    let end_time = match &row.end_time {
        Some(text) => match Timestamp::parse_from_rfc3339(text.as_str()) {
            Ok(t) => Some(t),
            Err(cause) => return Err(ReadError::InvalidEndTime(cause)),
        },
        None => None,
    };
    Ok(
        record_from_columns(
            Some(row.id),
            start_time,
            end_time,
            row.state.as_str(),
            focus,
            row.run_id.clone(),
        ),
    )
}

/// A record comes back from its row with its times, state, run and focus, under the number that
/// the database gave it. How many events it had, and which, is not stored.
pub proof fn law_records_are_read_back(
    r: RecordView,
    focus: Option<Seq<char>>,
    id: i64,
    parsed: Option<FocusView>,
)
    requires
        is_instant_of(r.start_time.text(), r.start_time),
        r.end_time matches Some(t) ==> is_instant_of(t.text(), t),
    ensures
        record_error(record_row(r, focus)) is None,
        is_record_of(record_row(r, focus), id, parsed, record_back(r, id, parsed)),
{
    law_state_names(r.state);
}

/// A row of a stored transition.
#[derive(Debug)]
pub struct TransitionRow {
    pub at: String,
    pub from_state: String,
    pub to_state: String,
    pub by_signal: Option<String>,
    pub run_id: Option<String>,
}

#[verifier::ext_equal]
pub struct TransitionRowView {
    pub at: Seq<char>,
    pub from_state: Seq<char>,
    pub to_state: Seq<char>,
    pub by_signal: Option<Seq<char>>,
    pub run_id: Option<Seq<char>>,
}

impl View for TransitionRow {
    type V = TransitionRowView;

    open spec fn view(&self) -> TransitionRowView {
        TransitionRowView {
            at: self.at@,
            from_state: self.from_state@,
            to_state: self.to_state@,
            by_signal: view_opt(self.by_signal),
            run_id: view_opt(self.run_id),
        }
    }
}

/// The row of a transition.
pub open spec fn transition_row(t: TransitionView) -> TransitionRowView {
    TransitionRowView {
        at: t.at.text(),
        from_state: state_label(t.from),
        to_state: state_label(t.to),
        by_signal: t.by_signal,
        run_id: t.run_id,
    }
}

/// Writes a transition as a row.
pub fn write_transition(t: &Transition) -> (r: TransitionRow)
    ensures
        r@ == transition_row(t@),
        t.at.in_common_years() ==> is_instant_of(r@.at, t.at) && forall|at: Timestamp|
            is_instant_of(r@.at, at) ==> #[trigger] transition_of_row(r@, at) == t@,
{
    let row = TransitionRow {
        at: t.at.to_rfc3339(),
        from_state: label_of_state(t.from).to_string(),
        to_state: label_of_state(t.to).to_string(),
        by_signal: t.by_signal.clone(),
        run_id: t.run_id.clone(),
    };
    proof {
        law_transitions_are_read_back(t@);
        if t.at.in_common_years() {
            assert forall|at: Timestamp| is_instant_of(row@.at, at) implies #[trigger]
                transition_of_row(row@, at) == t@ by {
                lemma_same_instant(at, t.at);
            }
        }
    }
    row
}

/// The transition of a row; `at` is the instant of its timestamp.
pub open spec fn transition_of_row(row: TransitionRowView, at: Timestamp) -> TransitionView {
    TransitionView {
        from: state_named(row.from_state),
        to: state_named(row.to_state),
        at,
        by_signal: row.by_signal,
        run_id: row.run_id,
    }
}

/// Reads a transition from a row.
pub fn read_transition(row: &TransitionRow) -> (r: Result<Transition, ReadError>)
    ensures
        match r {
            Ok(t) => is_instant_of(row@.at, t.at) && t@ == transition_of_row(row@, t.at),
            Err(e) => is_refusal_of(row@.at, e@),
        },
{
    match Timestamp::parse_from_rfc3339(row.at.as_str()) {
        Ok(at) => Ok(
            Transition {
                from: parse_state_label(row.from_state.as_str()),
                to: parse_state_label(row.to_state.as_str()),
                at,
                by_signal: row.by_signal.clone(),
                run_id: row.run_id.clone(),
            },
        ),
        Err(cause) => Err(ReadError::InvalidTimestamp(cause)),
    }
}

/// A transition is read back from its row.
pub proof fn law_transitions_are_read_back(t: TransitionView)
    ensures
        transition_of_row(transition_row(t), t.at) == t,
{
    law_state_names(t.from);
    law_state_names(t.to);
}

/// A row of a stored raw event.
#[derive(Debug)]
pub struct RawEventRow {
    pub timestamp: String,
    pub event_type: String,
    pub data: String,
}

/// Writes a raw event as a row. `data` is its JSON.
pub fn write_raw_event(event: &RawEvent, data: String) -> (r: RawEventRow)
    ensures
        r.timestamp@ == event@.timestamp.text(),
        r.event_type@ == match event@.report {
            crate::events::Report::Keyboard(_) => "keyboard"@,
            crate::events::Report::Mouse(_) => "mouse"@,
            crate::events::Report::Focus(_) => "window_focus_change"@,
        },
        r.data == data,
{
    RawEventRow {
        timestamp: event.timestamp().to_rfc3339(),
        event_type: event.event_type().to_string(),
        data,
    }
}

/// A row of a stored condensed event.
#[derive(Debug)]
pub struct CompactRow {
    pub start_time: String,
    pub end_time: String,
    pub kind: String,
    pub payload: Option<String>,
    pub raw_event_ref: Option<String>,
}

/// The name under which a condensed event is stored.
pub open spec fn compact_label(e: CompactEvent) -> Seq<char> {
    match e {
        CompactEvent::Scroll(_) => "compact:scroll"@,
        CompactEvent::MouseTrajectory(_) => "compact:mouse_traj"@,
        CompactEvent::Keyboard(_) => "compact:keyboard"@,
        CompactEvent::Focus(_) => "compact:focus"@,
    }
}

/// When a condensed event starts and ends. A focus is an instant.
pub open spec fn compact_span(e: CompactEvent) -> (Timestamp, Timestamp) {
    match e {
        CompactEvent::Scroll(s) => (s.start_time, s.end_time),
        CompactEvent::MouseTrajectory(t) => (t.start_time, t.end_time),
        CompactEvent::Keyboard(k) => (k.start_time, k.end_time),
        CompactEvent::Focus(f) => (f.timestamp, f.timestamp),
    }
}

/// The condensed event has a pointer to raw events.
pub open spec fn has_pointer(e: CompactEvent) -> bool {
    match e {
        CompactEvent::Scroll(s) => s.raw_event_ids is Some,
        CompactEvent::MouseTrajectory(t) => t.raw_event_ids is Some,
        CompactEvent::Keyboard(k) => k.raw_event_ids is Some,
        CompactEvent::Focus(f) => f.raw_event_ids is Some,
    }
}

/// Writes a condensed event as a row. `payload` is its JSON, `pointer` that of its pointer to raw
/// events, where it has one.
pub fn write_compact(e: &CompactEvent, payload: Option<String>, pointer: Option<String>) -> (r:
    CompactRow)
    ensures
        r.start_time@ == compact_span(*e).0.text(),
        r.end_time@ == compact_span(*e).1.text(),
        r.kind@ == compact_label(*e),
        r.payload == payload,
        r.raw_event_ref == if has_pointer(*e) {
            pointer
        } else {
            None
        },
{
    let (start, end, label, pointed) = match e {
        CompactEvent::Scroll(s) => (
            s.start_time,
            s.end_time,
            "compact:scroll",
            s.raw_event_ids.is_some(),
        ),
        CompactEvent::MouseTrajectory(t) => (
            t.start_time,
            t.end_time,
            "compact:mouse_traj",
            t.raw_event_ids.is_some(),
        ),
        CompactEvent::Keyboard(k) => (
            k.start_time,
            k.end_time,
            "compact:keyboard",
            k.raw_event_ids.is_some(),
        ),
        CompactEvent::Focus(f) => (
            f.timestamp,
            f.timestamp,
            "compact:focus",
            f.raw_event_ids.is_some(),
        ),
    };
    CompactRow {
        start_time: start.to_rfc3339(),
        end_time: end.to_rfc3339(),
        kind: label.to_string(),
        payload,
        raw_event_ref: if pointed {
            pointer
        } else {
            None
        },
    }
}

/// Whatever record a reader makes of the row of a record has the same times, state and run, the focus
/// that was read and the number that the database gave.
pub proof fn law_stored_record_keeps_its_state(
    r: RecordView,
    focus: Option<Seq<char>>,
    id: i64,
    parsed: Option<FocusView>,
    back: RecordView,
)
    requires
        is_instant_of(r.start_time.text(), r.start_time),
        r.end_time matches Some(t) ==> is_instant_of(t.text(), t),
        is_record_of(record_row(r, focus), id, parsed, back),
    ensures
        back.start_time == r.start_time,
        back.end_time == r.end_time,
        back.state == r.state,
        back.run_id == r.run_id,
        back.focus_info == parsed,
        back.event_count == 0,
        back.triggering_events.len() == 0,
        id >= 0 ==> back.record_id == id,
        record_row(r, focus).focus_info == if r.focus_info is Some {
            focus
        } else {
            None
        },
{
    law_state_names(r.state);
    lemma_same_instant(back.start_time, r.start_time);
    if r.end_time is Some {
        lemma_same_instant(back.end_time->0, r.end_time->0);
    }
}

} // verus!
