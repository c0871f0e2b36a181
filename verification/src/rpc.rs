//! The snapshot as the daemon sends it, and the snapshot that it stands for.

use crate::display::{pretty, pretty_duration};
use crate::events::{FocusView, MousePosition, WindowFocusInfo};
use crate::numbers::{number_in, parse_number};
use crate::records::{ActivityRecord, ActivityState, RecordView};
use crate::snapshot::{
    no_config, ConfigSummary, Counts, Snapshot, SnapshotApp, SnapshotAppView, SnapshotView,
    SnapshotWindow, SnapshotWindowView, StorageInfo, Transition, TransitionView,
};
use crate::time::{is_instant, Timestamp};
use crate::views::{view_opt, views};
use std::sync::Arc;
use vstd::prelude::*;

verus! {

#[derive(Clone, Copy, Debug)]
pub struct ReplyTime {
    pub seconds: i64,
    pub nanos: i32,
}

#[derive(Debug)]
pub struct ReplyFocus {
    pub app_name: String,
    pub pid: i32,
    pub process_start_time: u64,
    pub window_id: String,
    pub window_title: String,
    pub window_instance_start: Option<ReplyTime>,
    pub window_position: Option<(i32, i32)>,
    pub window_size: Option<(u32, u32)>,
}

#[derive(Debug)]
pub struct ReplyTransition {
    pub from: i32,
    pub to: i32,
    pub at: Option<ReplyTime>,
    pub run_id: String,
}

#[derive(Debug)]
pub struct ReplyCadence {
    pub current_ms: u32,
    pub reason: String,
}

#[derive(Clone, Copy, Debug)]
pub struct ReplyStorage {
    pub backlog_count: u64,
    pub last_flush: Option<ReplyTime>,
}

#[derive(Clone, Copy, Debug)]
pub struct ReplyConfig {
    pub active_grace_secs: u64,
    pub idle_threshold_secs: u64,
    pub retention_minutes: u64,
    pub ephemeral_max_duration_secs: u64,
    pub ephemeral_min_distinct_ids: u32,
    pub ephemeral_app_max_duration_secs: u64,
    pub ephemeral_app_min_distinct_procs: u32,
}

#[derive(Debug)]
pub struct ReplyWindow {
    pub window_id: String,
    pub window_title: String,
    pub first_seen: Option<ReplyTime>,
    pub last_seen: Option<ReplyTime>,
    pub duration_seconds: u64,
    pub is_group: bool,
}

#[derive(Debug)]
pub struct ReplyApp {
    pub app_name: String,
    pub pid: i32,
    pub process_start_time: u64,
    pub windows: Vec<ReplyWindow>,
    pub total_duration_secs: u64,
    pub total_duration_pretty: String,
}

#[derive(Debug)]
pub struct ReplyRecord {
    pub record_id: u64,
    pub run_id: String,
    pub start_time: Option<ReplyTime>,
    pub end_time: Option<ReplyTime>,
    pub state: i32,
    pub focus: Option<ReplyFocus>,
    pub event_count: u32,
    pub triggering_events: Vec<u64>,
}

#[derive(Debug)]
pub struct SnapshotReply {
    pub seq: u64,
    pub mono_ns: u64,
    pub run_id: String,
    pub activity_state: i32,
    pub focus: Option<ReplyFocus>,
    pub last_transition: Option<ReplyTransition>,
    pub counts: Option<Counts>,
    pub cadence: Option<ReplyCadence>,
    pub next_timeout: Option<ReplyTime>,
    pub storage: Option<ReplyStorage>,
    pub config: Option<ReplyConfig>,
    pub health: Vec<String>,
    pub aggregated_apps: Vec<ReplyApp>,
    pub records: Vec<ReplyRecord>,
}

/// The state with the given code; an unknown code stands for the inactive state.
pub open spec fn state_of_code(code: i32) -> ActivityState {
    if code == 1 {
        ActivityState::Active
    } else if code == 2 {
        ActivityState::Passive
    } else if code == 4 {
        ActivityState::Locked
    } else {
        ActivityState::Inactive
    }
}

/// A time was sent, and it denotes an instant.
pub open spec fn denotes(t: Option<ReplyTime>) -> bool {
    t is Some && is_instant(t->0.seconds as int, t->0.nanos as int)
}

/// The instant that was sent, if any.
pub open spec fn is_time_of(t: Option<ReplyTime>, r: Option<Timestamp>) -> bool {
    match r {
        Some(at) => denotes(t) && at.secs() == t->0.seconds && at.nanos() == t->0.nanos,
        None => !denotes(t),
    }
}

/// The instant that was sent, and `now` where none was.
pub open spec fn is_time_or(t: Option<ReplyTime>, now: Timestamp, at: Timestamp) -> bool {
    if denotes(t) {
        at.secs() == t->0.seconds && at.nanos() == t->0.nanos
    } else {
        at == now
    }
}

/// The text, and none where it is empty.
pub open spec fn text_if_any(s: Seq<char>) -> Option<Seq<char>> {
    if s.len() == 0 {
        None
    } else {
        Some(s)
    }
}

/// The number that a text denotes, and 0 where it denotes none that fits.
pub open spec fn id_of(text: Seq<char>) -> u32 {
    match number_in(text) {
        Some(n) => if n <= u32::MAX {
            n as u32
        } else {
            0
        },
        None => 0,
    }
}

pub open spec fn is_focus_of(f: ReplyFocus, now: Timestamp, r: FocusView) -> bool {
    &&& r.pid == f.pid
    &&& r.process_start_time == f.process_start_time
    &&& r.app_name == f.app_name@
    &&& r.window_title == f.window_title@
    &&& r.window_id == id_of(f.window_id@)
    &&& is_time_or(f.window_instance_start, now, r.window_instance_start)
    &&& r.window_position == match f.window_position {
        Some(p) => Some(MousePosition { x: p.0, y: p.1 }),
        None => None,
    }
    &&& r.window_size == f.window_size
}

pub open spec fn is_focus_opt_of(
    f: Option<ReplyFocus>,
    now: Timestamp,
    r: Option<FocusView>,
) -> bool {
    match (f, r) {
        (Some(f), Some(v)) => is_focus_of(f, now, v),
        (None, None) => true,
        _ => false,
    }
}

pub open spec fn is_transition_of(t: ReplyTransition, now: Timestamp, r: TransitionView) -> bool {
    &&& r.from == state_of_code(t.from)
    &&& r.to == state_of_code(t.to)
    &&& is_time_or(t.at, now, r.at)
    &&& r.by_signal is None
    &&& r.run_id == text_if_any(t.run_id@)
}

pub open spec fn is_window_of(w: ReplyWindow, now: Timestamp, r: SnapshotWindowView) -> bool {
    &&& r.window_id == w.window_id@
    &&& r.window_title == w.window_title@
    &&& is_time_or(w.first_seen, now, r.first_seen)
    &&& is_time_or(w.last_seen, now, r.last_seen)
    &&& r.duration_seconds == w.duration_seconds
    &&& r.is_group == w.is_group
}

pub open spec fn is_app_of(a: ReplyApp, now: Timestamp, r: SnapshotAppView) -> bool {
    &&& r.app_name == a.app_name@
    &&& r.pid == a.pid
    &&& r.process_start_time == a.process_start_time
    &&& r.windows.len() == a.windows@.len()
    &&& forall|i: int|
        0 <= i < a.windows@.len() ==> is_window_of(a.windows@[i], now, #[trigger] r.windows[i])
    &&& r.total_duration_secs == a.total_duration_secs
    &&& r.total_duration_pretty == if a.total_duration_pretty@.len() == 0 {
        pretty(a.total_duration_secs as int)
    } else {
        a.total_duration_pretty@
    }
}

pub open spec fn is_record_of(x: ReplyRecord, now: Timestamp, r: RecordView) -> bool {
    &&& r.record_id == x.record_id
    &&& r.run_id == text_if_any(x.run_id@)
    &&& is_time_or(x.start_time, now, r.start_time)
    &&& is_time_of(x.end_time, r.end_time)
    &&& r.state == state_of_code(x.state)
    &&& is_focus_opt_of(x.focus, now, r.focus_info)
    &&& r.event_count == x.event_count
    &&& r.triggering_events == x.triggering_events@
}

/// The configuration that was sent.
pub open spec fn config_of(c: Option<ReplyConfig>) -> ConfigSummary {
    match c {
        Some(c) => ConfigSummary {
            active_grace_secs: c.active_grace_secs,
            idle_threshold_secs: c.idle_threshold_secs,
            retention_minutes: c.retention_minutes,
            ephemeral_max_duration_secs: c.ephemeral_max_duration_secs,
            ephemeral_min_distinct_ids: c.ephemeral_min_distinct_ids as usize,
            ephemeral_app_max_duration_secs: c.ephemeral_app_max_duration_secs,
            ephemeral_app_min_distinct_procs: c.ephemeral_app_min_distinct_procs as usize,
        },
        None => no_config(),
    }
}

/// The snapshot is what the reply stands for, when the clock reads `now`. What was not sent is
/// zero or empty; the recent transitions and changes of title are never sent.
pub open spec fn is_snapshot_of(reply: SnapshotReply, now: Timestamp, r: SnapshotView) -> bool {
    &&& r.seq == reply.seq
    &&& r.mono_ns == reply.mono_ns
    &&& r.run_id == text_if_any(reply.run_id@)
    &&& r.activity_state == state_of_code(reply.activity_state)
    &&& is_focus_opt_of(reply.focus, now, r.focus)
    &&& match (reply.last_transition, r.last_transition) {
        (Some(t), Some(v)) => is_transition_of(t, now, v),
        (None, None) => true,
        _ => false,
    }
    &&& r.transitions_recent == Seq::<TransitionView>::empty()
    &&& r.counts == match reply.counts {
        Some(c) => c,
        None => (Counts { signals_seen: 0, hints_seen: 0, records_emitted: 0 }),
    }
    &&& r.cadence_ms == match reply.cadence {
        Some(c) => c.current_ms,
        None => 0,
    }
    &&& r.cadence_reason == match reply.cadence {
        Some(c) => c.reason@,
        None => Seq::empty(),
    }
    &&& is_time_of(reply.next_timeout, r.next_timeout)
    &&& match reply.storage {
        Some(s) => r.storage.backlog_count == s.backlog_count && is_time_of(
            s.last_flush,
            r.storage.last_flush_at,
        ),
        None => r.storage == (StorageInfo { backlog_count: 0, last_flush_at: None }),
    }
    &&& r.config == config_of(reply.config)
    &&& r.health == views(reply.health@)
    &&& r.aggregated_apps.len() == reply.aggregated_apps@.len()
    &&& forall|i: int|
        0 <= i < r.aggregated_apps.len() ==> is_app_of(
            reply.aggregated_apps@[i],
            now,
            #[trigger] r.aggregated_apps[i],
        )
    &&& r.title_revisions_recent.len() == 0
    &&& r.records.len() == reply.records@.len()
    &&& forall|i: int|
        0 <= i < r.records.len() ==> is_record_of(reply.records@[i], now, #[trigger] r.records[i])
}

fn map_state(code: i32) -> (r: ActivityState)
    ensures
        r == state_of_code(code),
{
    if code == 1 {
        ActivityState::Active
    } else if code == 2 {
        ActivityState::Passive
    } else if code == 4 {
        ActivityState::Locked
    } else {
        ActivityState::Inactive
    }
}

fn map_time(t: &Option<ReplyTime>) -> (r: Option<Timestamp>)
    ensures
        is_time_of(*t, r),
{
    match t {
        Some(ts) => {
            if ts.nanos < 0 {
                None
            } else {
                Timestamp::from_timestamp(ts.seconds, ts.nanos as u32)
            }
        },
        None => None,
    }
}

fn map_time_or(t: &Option<ReplyTime>, now: Timestamp) -> (r: Timestamp)
    ensures
        is_time_or(*t, now, r),
{
    match map_time(t) {
        Some(at) => at,
        None => now,
    }
}

fn map_text(s: &String) -> (r: Option<String>)
    ensures
        view_opt(r) == text_if_any(s@),
{
    if s.as_str().is_empty() {
        None
    } else {
        Some(s.clone())
    }
}

fn map_focus(f: &ReplyFocus, now: Timestamp) -> (r: WindowFocusInfo)
    ensures
        is_focus_of(*f, now, r@),
{
    let window_id: u32 = match parse_number(f.window_id.as_str(), u32::MAX as u64) {
        Some(n) => n as u32,
        None => 0,
    };
    let window_position = match f.window_position {
        Some((x, y)) => Some(MousePosition { x, y }),
        None => None,
    };
    WindowFocusInfo {
        pid: f.pid,
        process_start_time: f.process_start_time,
        app_name: Arc::new(f.app_name.clone()),
        window_title: Arc::new(f.window_title.clone()),
        window_id,
        window_instance_start: map_time_or(&f.window_instance_start, now),
        window_position,
        window_size: f.window_size,
    }
}

fn map_focus_opt(f: &Option<ReplyFocus>, now: Timestamp) -> (r: Option<WindowFocusInfo>)
    ensures
        is_focus_opt_of(*f, now, view_opt(r)),
{
    match f {
        Some(f) => Some(map_focus(f, now)),
        None => None,
    }
}

fn map_transition(t: &ReplyTransition, now: Timestamp) -> (r: Transition)
    ensures
        is_transition_of(*t, now, r@),
{
    Transition {
        from: map_state(t.from),
        to: map_state(t.to),
        at: map_time_or(&t.at, now),
        by_signal: None,
        run_id: map_text(&t.run_id),
    }
}

fn map_window(w: &ReplyWindow, now: Timestamp) -> (r: SnapshotWindow)
    ensures
        is_window_of(*w, now, r@),
{
    SnapshotWindow {
        window_id: w.window_id.clone(),
        window_title: w.window_title.clone(),
        first_seen: map_time_or(&w.first_seen, now),
        last_seen: map_time_or(&w.last_seen, now),
        duration_seconds: w.duration_seconds,
        is_group: w.is_group,
    }
}

fn map_app(a: &ReplyApp, now: Timestamp) -> (r: SnapshotApp)
    ensures
        is_app_of(*a, now, r@),
{
    let mut windows: Vec<SnapshotWindow> = Vec::new();
    let mut i: usize = 0;
    while i < a.windows.len()
        invariant
            i <= a.windows.len(),
            windows.len() == i,
            forall|j: int| 0 <= j < i ==> is_window_of(a.windows@[j], now, #[trigger] windows@[j]@),
        decreases a.windows.len() - i,
    {
        windows.push(map_window(&a.windows[i], now));
        i += 1;
    }
    let total_duration_pretty = if a.total_duration_pretty.as_str().is_empty() {
        pretty_duration(a.total_duration_secs)
    } else {
        a.total_duration_pretty.clone()
    };
    SnapshotApp {
        app_name: a.app_name.clone(),
        pid: a.pid,
        process_start_time: a.process_start_time,
        windows,
        total_duration_secs: a.total_duration_secs,
        total_duration_pretty,
    }
}

fn map_record(x: &ReplyRecord, now: Timestamp) -> (r: ActivityRecord)
    ensures
        is_record_of(*x, now, r@),
{
    let triggering_events = x.triggering_events.clone();
    assert(triggering_events@ =~= x.triggering_events@);
    ActivityRecord {
        record_id: x.record_id,
        run_id: map_text(&x.run_id),
        start_time: map_time_or(&x.start_time, now),
        end_time: map_time(&x.end_time),
        state: map_state(x.state),
        focus_info: map_focus_opt(&x.focus, now),
        event_count: x.event_count,
        triggering_events,
    }
}

fn map_storage(s: &Option<ReplyStorage>) -> (r: StorageInfo)
    ensures
        match *s {
            Some(s) => r.backlog_count == s.backlog_count && is_time_of(
                s.last_flush,
                r.last_flush_at,
            ),
            None => r == (StorageInfo { backlog_count: 0, last_flush_at: None }),
        },
{
    match s {
        Some(s) => StorageInfo {
            backlog_count: s.backlog_count,
            last_flush_at: map_time(&s.last_flush),
        },
        None => StorageInfo::default(),
    }
}

fn map_config(c: &Option<ReplyConfig>) -> (r: ConfigSummary)
    ensures
        r == config_of(*c),
{
    match c {
        Some(c) => ConfigSummary {
            active_grace_secs: c.active_grace_secs,
            idle_threshold_secs: c.idle_threshold_secs,
            retention_minutes: c.retention_minutes,
            ephemeral_max_duration_secs: c.ephemeral_max_duration_secs,
            ephemeral_min_distinct_ids: c.ephemeral_min_distinct_ids as usize,
            ephemeral_app_max_duration_secs: c.ephemeral_app_max_duration_secs,
            ephemeral_app_min_distinct_procs: c.ephemeral_app_min_distinct_procs as usize,
        },
        None => ConfigSummary::default(),
    }
}

/// The snapshot that a reply stands for, when the clock reads `now`.
pub fn map_pb_snapshot_at(reply: &SnapshotReply, now: Timestamp) -> (r: Snapshot)
    ensures
        is_snapshot_of(*reply, now, r@),
{
    let mut aggregated_apps: Vec<SnapshotApp> = Vec::new();
    let mut i: usize = 0;
    while i < reply.aggregated_apps.len()
        invariant
            i <= reply.aggregated_apps.len(),
            aggregated_apps.len() == i,
            forall|j: int|
                0 <= j < i ==> is_app_of(
                    reply.aggregated_apps@[j],
                    now,
                    #[trigger] aggregated_apps@[j]@,
                ),
        decreases reply.aggregated_apps.len() - i,
    {
        aggregated_apps.push(map_app(&reply.aggregated_apps[i], now));
        i += 1;
    }
    let mut records: Vec<ActivityRecord> = Vec::new();
    let mut k: usize = 0;
    while k < reply.records.len()
        invariant
            k <= reply.records.len(),
            records.len() == k,
            forall|j: int|
                0 <= j < k ==> is_record_of(reply.records@[j], now, #[trigger] records@[j]@),
        decreases reply.records.len() - k,
    {
        records.push(map_record(&reply.records[k], now));
        k += 1;
    }
    let last_transition = match &reply.last_transition {
        Some(t) => Some(map_transition(t, now)),
        None => None,
    };
    let counts = match reply.counts {
        Some(c) => c,
        None => Counts::default(),
    };
    let (cadence_ms, cadence_reason) = match &reply.cadence {
        Some(c) => (c.current_ms, c.reason.clone()),
        None => (0, String::new()),
    };
    let health = reply.health.clone();
    assert(views(health@) =~= views(reply.health@));
    let r = Snapshot {
        seq: reply.seq,
        mono_ns: reply.mono_ns,
        run_id: map_text(&reply.run_id),
        activity_state: map_state(reply.activity_state),
        focus: map_focus_opt(&reply.focus, now),
        last_transition,
        transitions_recent: Vec::new(),
        counts,
        cadence_ms,
        cadence_reason,
        next_timeout: map_time(&reply.next_timeout),
        storage: map_storage(&reply.storage),
        config: map_config(&reply.config),
        health,
        aggregated_apps,
        title_revisions_recent: Vec::new(),
        records,
    };
    assert(r@.transitions_recent =~= Seq::empty());
    r
}

/// The snapshot that a reply stands for. Times that were not sent are read from the clock.
pub fn map_pb_snapshot(reply: &SnapshotReply) -> (r: Snapshot)
    ensures
        exists|now: Timestamp| #[trigger] is_snapshot_of(*reply, now, r@),
{
    let now = Timestamp::now();
    map_pb_snapshot_at(reply, now)
}

/// What a reply says is shown as it was sent: the state under its code, the numbers and texts
/// unchanged, and all applications, windows and records, in order.
pub proof fn law_reply_is_shown_as_sent(reply: SnapshotReply, now: Timestamp, r: SnapshotView)
    requires
        is_snapshot_of(reply, now, r),
    ensures
        r.seq == reply.seq && r.mono_ns == reply.mono_ns,
        r.activity_state == ActivityState::Active <==> reply.activity_state == 1,
        r.activity_state == ActivityState::Passive <==> reply.activity_state == 2,
        r.activity_state == ActivityState::Locked <==> reply.activity_state == 4,
        r.focus is Some <==> reply.focus is Some,
        r.focus is Some ==> r.focus->0.pid == reply.focus->0.pid && r.focus->0.app_name
            == reply.focus->0.app_name@ && r.focus->0.window_title == reply.focus->0.window_title@
            && r.focus->0.process_start_time == reply.focus->0.process_start_time,
        r.last_transition is Some <==> reply.last_transition is Some,
        reply.counts is Some ==> r.counts == reply.counts->0,
        reply.cadence is Some ==> r.cadence_ms == reply.cadence->0.current_ms && r.cadence_reason
            == reply.cadence->0.reason@,
        reply.storage is Some ==> r.storage.backlog_count == reply.storage->0.backlog_count,
        reply.config is Some ==> r.config.active_grace_secs == reply.config->0.active_grace_secs
            && r.config.idle_threshold_secs == reply.config->0.idle_threshold_secs
            && r.config.retention_minutes == reply.config->0.retention_minutes,
        r.health.len() == reply.health@.len(),
        forall|i: int| 0 <= i < r.health.len() ==> #[trigger] r.health[i] == reply.health@[i]@,
        r.aggregated_apps.len() == reply.aggregated_apps@.len(),
        forall|i: int|
            0 <= i < r.aggregated_apps.len() ==> ({
                let sent = reply.aggregated_apps@[i];
                let shown = #[trigger] r.aggregated_apps[i];
                &&& shown.app_name == sent.app_name@
                &&& shown.pid == sent.pid
                &&& shown.total_duration_secs == sent.total_duration_secs
                &&& shown.windows.len() == sent.windows@.len()
                &&& forall|j: int|
                    0 <= j < shown.windows.len() ==> (#[trigger] shown.windows[j]).window_id
                        == sent.windows@[j].window_id@ && shown.windows[j].window_title
                        == sent.windows@[j].window_title@ && shown.windows[j].duration_seconds
                        == sent.windows@[j].duration_seconds && shown.windows[j].is_group
                        == sent.windows@[j].is_group
            }),
        r.records.len() == reply.records@.len(),
        forall|i: int|
            0 <= i < r.records.len() ==> ({
                let sent = reply.records@[i];
                let shown = #[trigger] r.records[i];
                &&& shown.record_id == sent.record_id
                &&& shown.event_count == sent.event_count
                &&& shown.triggering_events == sent.triggering_events@
                &&& shown.state == ActivityState::Active <==> sent.state == 1
                &&& shown.state == ActivityState::Passive <==> sent.state == 2
                &&& shown.state == ActivityState::Locked <==> sent.state == 4
                &&& shown.focus_info is Some <==> sent.focus is Some
                &&& sent.end_time is None ==> shown.end_time is None
                &&& sent.start_time is Some && is_instant(
                    sent.start_time->0.seconds as int,
                    sent.start_time->0.nanos as int,
                ) ==> shown.start_time.secs() == sent.start_time->0.seconds
                    && shown.start_time.nanos() == sent.start_time->0.nanos
            }),
{
    assert forall|i: int| 0 <= i < r.health.len() implies #[trigger] r.health[i]
        == reply.health@[i]@ by {
        assert(r.health[i] == views(reply.health@)[i]);
    }
}

} // verus!
