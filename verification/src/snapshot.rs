//! The published state of the tracker, and the differences from one state to the next.

use crate::events::{FocusView, WindowFocusInfo};
use crate::records::{ActivityRecord, ActivityState, RecordView};
use crate::time::{clock_nanos, Timestamp};
use crate::views::{group_views, lemma_views_push, view_opt, views};
use vstd::prelude::*;

verus! {

/// How many differences can be replayed.
pub const DELTA_HISTORY_CAPACITY: usize = 1024;

/// How many transitions are remembered.
pub const TRANSITIONS_CAPACITY: usize = 64;

/// How many health messages are remembered.
pub const HEALTH_CAPACITY: usize = 64;

/// How many changes of title are remembered.
pub const TITLE_REVISIONS_CAPACITY: usize = 128;

/// How many transitions a snapshot shows.
pub const TRANSITIONS_SHOWN: usize = 5;

/// How many changes of title a snapshot shows.
pub const TITLE_REVISIONS_SHOWN: usize = 64;

/// How long the lists of a snapshot can grow by applying differences.
pub const RECENT_LIMIT: usize = 64;

#[derive(Debug)]
pub struct Snapshot {
    pub seq: u64,
    pub mono_ns: u64,
    pub run_id: Option<String>,
    pub activity_state: ActivityState,
    pub focus: Option<WindowFocusInfo>,
    pub last_transition: Option<Transition>,
    pub transitions_recent: Vec<Transition>,
    pub counts: Counts,
    pub cadence_ms: u32,
    pub cadence_reason: String,
    pub next_timeout: Option<Timestamp>,
    pub storage: StorageInfo,
    pub config: ConfigSummary,
    pub health: Vec<String>,
    pub aggregated_apps: Vec<SnapshotApp>,
    pub title_revisions_recent: Vec<TitleRevisionRef>,
    pub records: Vec<ActivityRecord>,
}

/// A change of a window's title.
#[derive(Debug)]
pub struct TitleRevisionRef {
    pub event_id: u64,
    pub at: Timestamp,
    pub window_id: u32,
    pub title: String,
}

/// A change of state, and what caused it.
#[derive(Debug)]
pub struct Transition {
    pub from: ActivityState,
    pub to: ActivityState,
    pub at: Timestamp,
    pub by_signal: Option<String>,
    pub run_id: Option<String>,
}

#[derive(Clone, Copy, Debug, PartialEq, Eq, Structural)]
pub struct Counts {
    pub signals_seen: u64,
    pub hints_seen: u64,
    pub records_emitted: u64,
}

/// What changed from one snapshot to the next.
#[derive(Debug)]
pub struct SnapshotDelta {
    pub seq: u64,
    pub mono_ns: u64,
    pub run_id: Option<String>,
    pub activity_state: Option<ActivityState>,
    pub focus_cleared: bool,
    pub focus: Option<WindowFocusInfo>,
    pub last_transition: Option<Transition>,
    pub transitions_added: Vec<Transition>,
    pub counts: Option<Counts>,
    pub cadence_ms: Option<u32>,
    pub cadence_reason: Option<String>,
    pub next_timeout_cleared: bool,
    pub next_timeout: Option<Timestamp>,
    pub storage: Option<StorageInfo>,
    pub config: Option<ConfigSummary>,
    pub health_appended: Vec<String>,
    pub aggregated_apps_changed: bool,
    pub aggregated_apps: Vec<SnapshotApp>,
    pub title_revisions_added: Vec<TitleRevisionRef>,
}

#[derive(Clone, Copy, Debug, PartialEq, Eq, Structural)]
pub struct StorageInfo {
    pub backlog_count: u64,
    pub last_flush_at: Option<Timestamp>,
}

#[derive(Clone, Copy, Debug, PartialEq, Eq, Structural)]
pub struct ConfigSummary {
    pub active_grace_secs: u64,
    pub idle_threshold_secs: u64,
    pub retention_minutes: u64,
    pub ephemeral_max_duration_secs: u64,
    pub ephemeral_min_distinct_ids: usize,
    pub ephemeral_app_max_duration_secs: u64,
    pub ephemeral_app_min_distinct_procs: usize,
}

#[derive(Debug)]
pub struct SnapshotWindow {
    pub window_id: String,
    pub window_title: String,
    pub first_seen: Timestamp,
    pub last_seen: Timestamp,
    pub duration_seconds: u64,
    pub is_group: bool,
}

#[derive(Debug)]
pub struct SnapshotApp {
    pub app_name: String,
    pub pid: i32,
    pub process_start_time: u64,
    pub windows: Vec<SnapshotWindow>,
    pub total_duration_secs: u64,
    pub total_duration_pretty: String,
}

/// A differences request that reaches back too far.
#[derive(Clone, Copy, Debug, PartialEq, Eq, Structural)]
pub enum DeltaReplayError {
    AfterSeqTooOld,
}

#[verifier::ext_equal]
pub struct TitleRevisionView {
    pub event_id: u64,
    pub at: Timestamp,
    pub window_id: u32,
    pub title: Seq<char>,
}

#[verifier::ext_equal]
pub struct TransitionView {
    pub from: ActivityState,
    pub to: ActivityState,
    pub at: Timestamp,
    pub by_signal: Option<Seq<char>>,
    pub run_id: Option<Seq<char>>,
}

#[verifier::ext_equal]
pub struct SnapshotWindowView {
    pub window_id: Seq<char>,
    pub window_title: Seq<char>,
    pub first_seen: Timestamp,
    pub last_seen: Timestamp,
    pub duration_seconds: u64,
    pub is_group: bool,
}

#[verifier::ext_equal]
pub struct SnapshotAppView {
    pub app_name: Seq<char>,
    pub pid: i32,
    pub process_start_time: u64,
    pub windows: Seq<SnapshotWindowView>,
    pub total_duration_secs: u64,
    pub total_duration_pretty: Seq<char>,
}

#[verifier::ext_equal]
pub struct SnapshotView {
    pub seq: u64,
    pub mono_ns: u64,
    pub run_id: Option<Seq<char>>,
    pub activity_state: ActivityState,
    pub focus: Option<FocusView>,
    pub last_transition: Option<TransitionView>,
    pub transitions_recent: Seq<TransitionView>,
    pub counts: Counts,
    pub cadence_ms: u32,
    pub cadence_reason: Seq<char>,
    pub next_timeout: Option<Timestamp>,
    pub storage: StorageInfo,
    pub config: ConfigSummary,
    pub health: Seq<Seq<char>>,
    pub aggregated_apps: Seq<SnapshotAppView>,
    pub title_revisions_recent: Seq<TitleRevisionView>,
    pub records: Seq<RecordView>,
}

#[verifier::ext_equal]
pub struct DeltaView {
    pub seq: u64,
    pub mono_ns: u64,
    pub run_id: Option<Seq<char>>,
    pub activity_state: Option<ActivityState>,
    pub focus_cleared: bool,
    pub focus: Option<FocusView>,
    pub last_transition: Option<TransitionView>,
    pub transitions_added: Seq<TransitionView>,
    pub counts: Option<Counts>,
    pub cadence_ms: Option<u32>,
    pub cadence_reason: Option<Seq<char>>,
    pub next_timeout_cleared: bool,
    pub next_timeout: Option<Timestamp>,
    pub storage: Option<StorageInfo>,
    pub config: Option<ConfigSummary>,
    pub health_appended: Seq<Seq<char>>,
    pub aggregated_apps_changed: bool,
    pub aggregated_apps: Seq<SnapshotAppView>,
    pub title_revisions_added: Seq<TitleRevisionView>,
}

impl View for TitleRevisionRef {
    type V = TitleRevisionView;

    open spec fn view(&self) -> TitleRevisionView {
        TitleRevisionView {
            event_id: self.event_id,
            at: self.at,
            window_id: self.window_id,
            title: self.title@,
        }
    }
}

impl View for Transition {
    type V = TransitionView;

    open spec fn view(&self) -> TransitionView {
        TransitionView {
            from: self.from,
            to: self.to,
            at: self.at,
            by_signal: view_opt(self.by_signal),
            run_id: view_opt(self.run_id),
        }
    }
}

impl View for SnapshotWindow {
    type V = SnapshotWindowView;

    open spec fn view(&self) -> SnapshotWindowView {
        SnapshotWindowView {
            window_id: self.window_id@,
            window_title: self.window_title@,
            first_seen: self.first_seen,
            last_seen: self.last_seen,
            duration_seconds: self.duration_seconds,
            is_group: self.is_group,
        }
    }
}

impl View for SnapshotApp {
    type V = SnapshotAppView;

    open spec fn view(&self) -> SnapshotAppView {
        SnapshotAppView {
            app_name: self.app_name@,
            pid: self.pid,
            process_start_time: self.process_start_time,
            windows: views(self.windows@),
            total_duration_secs: self.total_duration_secs,
            total_duration_pretty: self.total_duration_pretty@,
        }
    }
}

impl View for Snapshot {
    type V = SnapshotView;

    open spec fn view(&self) -> SnapshotView {
        SnapshotView {
            seq: self.seq,
            mono_ns: self.mono_ns,
            run_id: view_opt(self.run_id),
            activity_state: self.activity_state,
            focus: view_opt(self.focus),
            last_transition: view_opt(self.last_transition),
            transitions_recent: views(self.transitions_recent@),
            counts: self.counts,
            cadence_ms: self.cadence_ms,
            cadence_reason: self.cadence_reason@,
            next_timeout: self.next_timeout,
            storage: self.storage,
            config: self.config,
            health: views(self.health@),
            aggregated_apps: views(self.aggregated_apps@),
            title_revisions_recent: views(self.title_revisions_recent@),
            records: views(self.records@),
        }
    }
}

impl View for SnapshotDelta {
    type V = DeltaView;

    open spec fn view(&self) -> DeltaView {
        DeltaView {
            seq: self.seq,
            mono_ns: self.mono_ns,
            run_id: view_opt(self.run_id),
            activity_state: self.activity_state,
            focus_cleared: self.focus_cleared,
            focus: view_opt(self.focus),
            last_transition: view_opt(self.last_transition),
            transitions_added: views(self.transitions_added@),
            counts: self.counts,
            cadence_ms: self.cadence_ms,
            cadence_reason: view_opt(self.cadence_reason),
            next_timeout_cleared: self.next_timeout_cleared,
            next_timeout: self.next_timeout,
            storage: self.storage,
            config: self.config,
            health_appended: views(self.health_appended@),
            aggregated_apps_changed: self.aggregated_apps_changed,
            aggregated_apps: views(self.aggregated_apps@),
            title_revisions_added: views(self.title_revisions_added@),
        }
    }
}

impl Clone for TitleRevisionRef {
    fn clone(&self) -> (res: Self)
        ensures
            res@ == self@,
    {
        TitleRevisionRef {
            event_id: self.event_id,
            at: self.at,
            window_id: self.window_id,
            title: self.title.clone(),
        }
    }
}

impl Clone for Transition {
    fn clone(&self) -> (res: Self)
        ensures
            res@ == self@,
    {
        Transition {
            from: self.from,
            to: self.to,
            at: self.at,
            by_signal: self.by_signal.clone(),
            run_id: self.run_id.clone(),
        }
    }
}

impl Clone for SnapshotWindow {
    fn clone(&self) -> (res: Self)
        ensures
            res@ == self@,
    {
        SnapshotWindow {
            window_id: self.window_id.clone(),
            window_title: self.window_title.clone(),
            first_seen: self.first_seen,
            last_seen: self.last_seen,
            duration_seconds: self.duration_seconds,
            is_group: self.is_group,
        }
    }
}

impl Clone for SnapshotApp {
    fn clone(&self) -> (res: Self)
        ensures
            res@ == self@,
    {
        let windows = self.windows.clone();
        assert(views(windows@) =~= views(self.windows@));
        SnapshotApp {
            app_name: self.app_name.clone(),
            pid: self.pid,
            process_start_time: self.process_start_time,
            windows,
            total_duration_secs: self.total_duration_secs,
            total_duration_pretty: self.total_duration_pretty.clone(),
        }
    }
}

impl Clone for Snapshot {
    fn clone(&self) -> (res: Self)
        ensures
            res@ == self@,
    {
        let transitions_recent = self.transitions_recent.clone();
        let health = self.health.clone();
        let aggregated_apps = self.aggregated_apps.clone();
        let title_revisions_recent = self.title_revisions_recent.clone();
        let records = self.records.clone();
        assert(views(transitions_recent@) =~= views(self.transitions_recent@));
        assert(views(health@) =~= views(self.health@));
        assert(views(aggregated_apps@) =~= views(self.aggregated_apps@));
        assert(views(title_revisions_recent@) =~= views(self.title_revisions_recent@));
        assert(views(records@) =~= views(self.records@));
        Snapshot {
            seq: self.seq,
            mono_ns: self.mono_ns,
            run_id: self.run_id.clone(),
            activity_state: self.activity_state,
            focus: self.focus.clone(),
            last_transition: self.last_transition.clone(),
            transitions_recent,
            counts: self.counts,
            cadence_ms: self.cadence_ms,
            cadence_reason: self.cadence_reason.clone(),
            next_timeout: self.next_timeout,
            storage: self.storage,
            config: self.config,
            health,
            aggregated_apps,
            title_revisions_recent,
            records,
        }
    }
}

impl Clone for SnapshotDelta {
    fn clone(&self) -> (res: Self)
        ensures
            res@ == self@,
    {
        let transitions_added = self.transitions_added.clone();
        let health_appended = self.health_appended.clone();
        let aggregated_apps = self.aggregated_apps.clone();
        let title_revisions_added = self.title_revisions_added.clone();
        assert(views(transitions_added@) =~= views(self.transitions_added@));
        assert(views(health_appended@) =~= views(self.health_appended@));
        assert(views(aggregated_apps@) =~= views(self.aggregated_apps@));
        assert(views(title_revisions_added@) =~= views(self.title_revisions_added@));
        SnapshotDelta {
            seq: self.seq,
            mono_ns: self.mono_ns,
            run_id: self.run_id.clone(),
            activity_state: self.activity_state,
            focus_cleared: self.focus_cleared,
            focus: self.focus.clone(),
            last_transition: self.last_transition.clone(),
            transitions_added,
            counts: self.counts,
            cadence_ms: self.cadence_ms,
            cadence_reason: self.cadence_reason.clone(),
            next_timeout_cleared: self.next_timeout_cleared,
            next_timeout: self.next_timeout,
            storage: self.storage,
            config: self.config,
            health_appended,
            aggregated_apps_changed: self.aggregated_apps_changed,
            aggregated_apps,
            title_revisions_added,
        }
    }
}

impl Default for Counts {
    fn default() -> (r: Self)
        ensures
            r == (Counts { signals_seen: 0, hints_seen: 0, records_emitted: 0 }),
    {
        Counts { signals_seen: 0, hints_seen: 0, records_emitted: 0 }
    }
}

impl Default for StorageInfo {
    fn default() -> (r: Self)
        ensures
            r == (StorageInfo { backlog_count: 0, last_flush_at: None }),
    {
        StorageInfo { backlog_count: 0, last_flush_at: None }
    }
}

/// A configuration of zeros.
pub open spec fn no_config() -> ConfigSummary {
    ConfigSummary {
        active_grace_secs: 0,
        idle_threshold_secs: 0,
        retention_minutes: 0,
        ephemeral_max_duration_secs: 0,
        ephemeral_min_distinct_ids: 0,
        ephemeral_app_max_duration_secs: 0,
        ephemeral_app_min_distinct_procs: 0,
    }
}

impl Default for ConfigSummary {
    fn default() -> (r: Self)
        ensures
            r == no_config(),
    {
        ConfigSummary {
            active_grace_secs: 0,
            idle_threshold_secs: 0,
            retention_minutes: 0,
            ephemeral_max_duration_secs: 0,
            ephemeral_min_distinct_ids: 0,
            ephemeral_app_max_duration_secs: 0,
            ephemeral_app_min_distinct_procs: 0,
        }
    }
}

/// A difference that changes nothing but the number, the time and the run.
pub open spec fn blank_delta(seq: u64, mono_ns: u64, run_id: Option<Seq<char>>) -> DeltaView {
    DeltaView {
        seq,
        mono_ns,
        run_id,
        activity_state: None,
        focus_cleared: false,
        focus: None,
        last_transition: None,
        transitions_added: Seq::empty(),
        counts: None,
        cadence_ms: None,
        cadence_reason: None,
        next_timeout_cleared: false,
        next_timeout: None,
        storage: None,
        config: None,
        health_appended: Seq::empty(),
        aggregated_apps_changed: false,
        aggregated_apps: Seq::empty(),
        title_revisions_added: Seq::empty(),
    }
}

impl Default for SnapshotDelta {
    fn default() -> (r: Self)
        ensures
            r@ == blank_delta(0, 0, None),
    {
        let r = SnapshotDelta {
            seq: 0,
            mono_ns: 0,
            run_id: None,
            activity_state: None,
            focus_cleared: false,
            focus: None,
            last_transition: None,
            transitions_added: Vec::new(),
            counts: None,
            cadence_ms: None,
            cadence_reason: None,
            next_timeout_cleared: false,
            next_timeout: None,
            storage: None,
            config: None,
            health_appended: Vec::new(),
            aggregated_apps_changed: false,
            aggregated_apps: Vec::new(),
            title_revisions_added: Vec::new(),
        };
        assert(r@ =~= blank_delta(0, 0, None));
        r
    }
}

/// A thing that can be compared and copied.
pub trait Item: View + Sized {
    fn same_as(&self, other: &Self) -> (r: bool)
        ensures
            r == (self@ == other@),
    ;

    fn copied(&self) -> (r: Self)
        ensures
            r@ == self@,
    ;
}

fn same_text(a: &Option<String>, b: &Option<String>) -> (r: bool)
    ensures
        r == (view_opt(*a) == view_opt(*b)),
{
    match (a, b) {
        (Some(x), Some(y)) => *x == *y,
        (None, None) => true,
        _ => false,
    }
}

/// Whether both hold equal things, or neither holds one.
fn same_opt<T: Item>(a: &Option<T>, b: &Option<T>) -> (r: bool)
    ensures
        r == (view_opt(*a) == view_opt(*b)),
{
    match (a, b) {
        (Some(x), Some(y)) => x.same_as(y),
        (None, None) => true,
        _ => false,
    }
}

fn same_time(a: &Option<Timestamp>, b: &Option<Timestamp>) -> (r: bool)
    ensures
        r == (*a == *b),
{
    match (a, b) {
        (Some(x), Some(y)) => *x == *y,
        (None, None) => true,
        _ => false,
    }
}

impl Item for String {
    fn same_as(&self, other: &Self) -> (r: bool) {
        *self == *other
    }

    fn copied(&self) -> (r: Self) {
        self.clone()
    }
}

impl Item for WindowFocusInfo {
    fn same_as(&self, other: &Self) -> (r: bool) {
        WindowFocusInfo::same_as(self, other)
    }

    fn copied(&self) -> (r: Self) {
        self.clone()
    }
}

impl Item for Transition {
    fn same_as(&self, other: &Self) -> (r: bool) {
        self.from == other.from && self.to == other.to && self.at == other.at && same_text(
            &self.by_signal,
            &other.by_signal,
        ) && same_text(&self.run_id, &other.run_id)
    }

    fn copied(&self) -> (r: Self) {
        self.clone()
    }
}

impl Item for TitleRevisionRef {
    fn same_as(&self, other: &Self) -> (r: bool) {
        self.event_id == other.event_id && self.at == other.at && self.window_id == other.window_id
            && self.title == other.title
    }

    fn copied(&self) -> (r: Self) {
        self.clone()
    }
}

impl Item for SnapshotWindow {
    fn same_as(&self, other: &Self) -> (r: bool) {
        self.window_id == other.window_id && self.window_title == other.window_title
            && self.first_seen == other.first_seen && self.last_seen == other.last_seen
            && self.duration_seconds == other.duration_seconds && self.is_group == other.is_group
    }

    fn copied(&self) -> (r: Self) {
        self.clone()
    }
}

impl Item for SnapshotApp {
    fn same_as(&self, other: &Self) -> (r: bool) {
        self.app_name == other.app_name && self.pid == other.pid && self.process_start_time
            == other.process_start_time && same_items(&self.windows, &other.windows)
            && self.total_duration_secs == other.total_duration_secs && self.total_duration_pretty
            == other.total_duration_pretty
    }

    fn copied(&self) -> (r: Self) {
        self.clone()
    }
}

impl Item for SnapshotDelta {
    fn same_as(&self, other: &Self) -> (r: bool) {
        self.seq == other.seq && self.mono_ns == other.mono_ns && same_text(
            &self.run_id,
            &other.run_id,
        ) && self.activity_state == other.activity_state && self.focus_cleared
            == other.focus_cleared && same_opt(&self.focus, &other.focus) && same_opt(
            &self.last_transition,
            &other.last_transition,
        ) && same_items(&self.transitions_added, &other.transitions_added) && self.counts
            == other.counts && self.cadence_ms == other.cadence_ms && same_text(
            &self.cadence_reason,
            &other.cadence_reason,
        ) && self.next_timeout_cleared == other.next_timeout_cleared && same_time(
            &self.next_timeout,
            &other.next_timeout,
        ) && self.storage == other.storage && self.config == other.config && same_items(
            &self.health_appended,
            &other.health_appended,
        ) && self.aggregated_apps_changed == other.aggregated_apps_changed && same_items(
            &self.aggregated_apps,
            &other.aggregated_apps,
        ) && same_items(&self.title_revisions_added, &other.title_revisions_added)
    }

    fn copied(&self) -> (r: Self) {
        self.clone()
    }
}

/// Whether `part` stands in `whole` from the place `at` on.
fn stands_at<T: Item>(whole: &Vec<T>, at: usize, part: &Vec<T>) -> (r: bool)
    requires
        at + part.len() <= whole.len(),
    ensures
        r == (views(whole@).subrange(at as int, at + part@.len()) == views(part@)),
{
    let mut i: usize = 0;
    while i < part.len()
        invariant
            at + part.len() <= whole.len(),
            i <= part.len(),
            forall|j: int|
                0 <= j < i ==> (#[trigger] views(whole@).subrange(
                    at as int,
                    at + part@.len(),
                )[j]) == views(part@)[j],
        decreases part.len() - i,
    {
        if !whole[at + i].same_as(&part[i]) {
            assert(views(whole@).subrange(at as int, at + part@.len())[i as int] != views(
                part@,
            )[i as int]);
            return false;
        }
        i += 1;
    }
    assert(views(whole@).subrange(at as int, at + part@.len()) =~= views(part@));
    true
}

/// Whether the two lists hold equal things in the same order.
fn same_items<T: Item>(a: &Vec<T>, b: &Vec<T>) -> (r: bool)
    ensures
        r == (views(a@) == views(b@)),
{
    if a.len() != b.len() {
        assert(views(a@).len() != views(b@).len());
        return false;
    }
    let r = stands_at(a, 0, b);
    assert(views(a@).subrange(0, b@.len() as int) =~= views(a@));
    r
}

/// `part` is what `whole` starts with.
pub open spec fn starts_with<V>(whole: Seq<V>, part: Seq<V>) -> bool {
    part.len() <= whole.len() && whole.take(part.len() as int) == part
}

/// `part` is what `whole` ends with.
pub open spec fn ends_with<V>(whole: Seq<V>, part: Seq<V>) -> bool {
    part.len() <= whole.len() && whole.skip(whole.len() - part.len()) == part
}

/// What was appended to `previous` to give `current`; all of `current` where it is no
/// continuation.
pub open spec fn appended<V>(previous: Seq<V>, current: Seq<V>) -> Seq<V> {
    if starts_with(current, previous) {
        current.skip(previous.len() as int)
    } else {
        current
    }
}

/// What was put in front of `previous`, where the newest comes first, to give `current`, oldest
/// first; all of `current` where it is no continuation.
pub open spec fn prepended<V>(previous: Seq<V>, current: Seq<V>) -> Seq<V> {
    if current.len() > previous.len() && ends_with(current, previous) {
        current.take(current.len() - previous.len()).reverse()
    } else if current != previous {
        current.reverse()
    } else {
        Seq::empty()
    }
}

/// Copies the items from `from` to `to`, in order.
fn copy_items<T: Item>(v: &Vec<T>, from: usize, to: usize) -> (r: Vec<T>)
    requires
        from <= to <= v.len(),
    ensures
        views(r@) == views(v@).subrange(from as int, to as int),
{
    broadcast use lemma_views_push;

    let ghost all = views(v@);
    let mut out: Vec<T> = Vec::new();
    let mut i: usize = from;
    assert(views(out@) =~= all.subrange(from as int, from as int));
    while i < to
        invariant
            all == views(v@),
            from <= i <= to <= v.len(),
            views(out@) == all.subrange(from as int, i as int),
        decreases to - i,
    {
        out.push(v[i].copied());
        i += 1;
        assert(all.subrange(from as int, i as int) =~= all.subrange(from as int, i - 1).push(
            all[i - 1],
        ));
    }
    out
}

/// Copies the first `n` items, last first.
fn copy_reversed<T: Item>(v: &Vec<T>, n: usize) -> (r: Vec<T>)
    requires
        n <= v.len(),
    ensures
        views(r@) == views(v@).take(n as int).reverse(),
{
    broadcast use lemma_views_push;

    let ghost whole = views(v@).take(n as int).reverse();
    let mut out: Vec<T> = Vec::new();
    let mut i: usize = n;
    assert(views(out@) =~= whole.take(0));
    while i > 0
        invariant
            whole == views(v@).take(n as int).reverse(),
            i <= n <= v.len(),
            views(out@) == whole.take(n - i),
        decreases i,
    {
        i -= 1;
        out.push(v[i].copied());
        assert(whole.take(n - i) =~= whole.take(n - i - 1).push(whole[n - i - 1]));
    }
    assert(whole.take(n as int) =~= whole);
    out
}

/// What was appended to `previous` to give `current`; all of `current` where it is no
/// continuation.
pub fn appended_suffix<T: Item>(previous: &Vec<T>, current: &Vec<T>) -> (r: Vec<T>)
    ensures
        views(r@) == appended(views(previous@), views(current@)),
{
    if previous.len() <= current.len() && stands_at(current, 0, previous) {
        assert(views(current@).subrange(previous@.len() as int, current@.len() as int) =~= views(
            current@,
        ).skip(previous@.len() as int));
        assert(views(current@).subrange(0, previous@.len() as int) =~= views(current@).take(
            previous@.len() as int,
        ));
        copy_items(current, previous.len(), current.len())
    } else {
        assert(views(current@).subrange(0, current@.len() as int) =~= views(current@));
        assert(previous@.len() <= current@.len() ==> views(current@).subrange(
            0,
            previous@.len() as int,
        ) =~= views(current@).take(previous@.len() as int));
        copy_items(current, 0, current.len())
    }
}

/// What was put in front of `previous`, where the newest comes first, to give `current`, oldest
/// first; all of `current` where it is no continuation.
pub fn prepended_newest_first<T: Item>(previous: &Vec<T>, current: &Vec<T>) -> (r: Vec<T>)
    ensures
        views(r@) == prepended(views(previous@), views(current@)),
{
    let ghost p = views(previous@);
    let ghost c = views(current@);
    if current.len() > previous.len() && stands_at(
        current,
        current.len() - previous.len(),
        previous,
    ) {
        assert(c.subrange(c.len() - p.len(), c.len() as int) =~= c.skip(c.len() - p.len()));
        copy_reversed(current, current.len() - previous.len())
    } else {
        assert(c.len() > p.len() ==> c.subrange(c.len() - p.len(), c.len() as int) =~= c.skip(
            c.len() - p.len(),
        ));
        if !same_items(current, previous) {
            assert(c.take(c.len() as int) =~= c);
            copy_reversed(current, current.len())
        } else {
            let out: Vec<T> = Vec::new();
            assert(views(out@) =~= Seq::empty());
            out
        }
    }
}

/// What changed from `previous` to `current`.
pub open spec fn full_delta(previous: SnapshotView, current: SnapshotView) -> DeltaView {
    let cadence = previous.cadence_ms != current.cadence_ms || previous.cadence_reason
        != current.cadence_reason;
    DeltaView {
        seq: current.seq,
        mono_ns: current.mono_ns,
        run_id: current.run_id,
        activity_state: if previous.activity_state != current.activity_state {
            Some(current.activity_state)
        } else {
            None
        },
        focus_cleared: previous.focus is Some && current.focus is None,
        focus: if previous.focus != current.focus {
            current.focus
        } else {
            None
        },
        last_transition: if previous.last_transition != current.last_transition {
            current.last_transition
        } else {
            None
        },
        transitions_added: prepended(previous.transitions_recent, current.transitions_recent),
        counts: if previous.counts != current.counts {
            Some(current.counts)
        } else {
            None
        },
        cadence_ms: if cadence {
            Some(current.cadence_ms)
        } else {
            None
        },
        cadence_reason: if cadence {
            Some(current.cadence_reason)
        } else {
            None
        },
        next_timeout_cleared: previous.next_timeout is Some && current.next_timeout is None,
        next_timeout: if previous.next_timeout != current.next_timeout {
            current.next_timeout
        } else {
            None
        },
        storage: if previous.storage != current.storage {
            Some(current.storage)
        } else {
            None
        },
        config: if previous.config != current.config {
            Some(current.config)
        } else {
            None
        },
        health_appended: appended(previous.health, current.health),
        aggregated_apps_changed: previous.aggregated_apps != current.aggregated_apps,
        aggregated_apps: if previous.aggregated_apps != current.aggregated_apps {
            current.aggregated_apps
        } else {
            Seq::empty()
        },
        title_revisions_added: prepended(
            previous.title_revisions_recent,
            current.title_revisions_recent,
        ),
    }
}

/// What is reported of a change: nothing, where only the number, the time or the run differ.
pub open spec fn delta_of(previous: SnapshotView, current: SnapshotView) -> Option<DeltaView> {
    let d = full_delta(previous, current);
    if d == blank_delta(current.seq, current.mono_ns, current.run_id) {
        None
    } else {
        Some(d)
    }
}

/// What changed from `previous` to `current`, if anything did.
pub fn build_delta(previous: &Snapshot, current: &Snapshot) -> (r: Option<SnapshotDelta>)
    ensures
        view_opt(r) == delta_of(previous@, current@),
{
    let mut delta = SnapshotDelta::default();
    delta.seq = current.seq;
    delta.mono_ns = current.mono_ns;
    delta.run_id = current.run_id.clone();
    if previous.activity_state != current.activity_state {
        delta.activity_state = Some(current.activity_state);
    }
    if !same_opt(&previous.focus, &current.focus) {
        match &current.focus {
            Some(focus) => {
                delta.focus = Some(focus.clone());
            },
            None => {
                delta.focus_cleared = true;
            },
        }
    }
    if !same_opt(&previous.last_transition, &current.last_transition) {
        delta.last_transition = current.last_transition.clone();
    }
    delta.transitions_added = prepended_newest_first(
        &previous.transitions_recent,
        &current.transitions_recent,
    );
    if previous.counts != current.counts {
        delta.counts = Some(current.counts);
    }
    if previous.cadence_ms != current.cadence_ms || previous.cadence_reason
        != current.cadence_reason {
        delta.cadence_ms = Some(current.cadence_ms);
        delta.cadence_reason = Some(current.cadence_reason.clone());
    }
    if !same_time(&previous.next_timeout, &current.next_timeout) {
        match current.next_timeout {
            Some(next_timeout) => {
                delta.next_timeout = Some(next_timeout);
            },
            None => {
                delta.next_timeout_cleared = true;
            },
        }
    }
    if previous.storage != current.storage {
        delta.storage = Some(current.storage);
    }
    if previous.config != current.config {
        delta.config = Some(current.config);
    }
    delta.health_appended = appended_suffix(&previous.health, &current.health);
    if !same_items(&previous.aggregated_apps, &current.aggregated_apps) {
        delta.aggregated_apps_changed = true;
        delta.aggregated_apps = current.aggregated_apps.clone();
        assert(views(delta.aggregated_apps@) =~= views(current.aggregated_apps@));
    }
    delta.title_revisions_added = prepended_newest_first(
        &previous.title_revisions_recent,
        &current.title_revisions_recent,
    );
    assert(delta@ =~= full_delta(previous@, current@));
    let mut blank = SnapshotDelta::default();
    blank.seq = current.seq;
    blank.mono_ns = current.mono_ns;
    blank.run_id = current.run_id.clone();
    assert(blank@ =~= blank_delta(current.seq, current.mono_ns, current@.run_id));
    if delta.same_as(&blank) {
        None
    } else {
        Some(delta)
    }
}

/// A newest-first list after items, given oldest first, were put in front of it.
pub open spec fn extended<V>(recent: Seq<V>, added: Seq<V>) -> Seq<V> {
    let all = added.reverse() + recent;
    if added.len() > 0 && all.len() > RECENT_LIMIT {
        all.take(RECENT_LIMIT as int)
    } else {
        all
    }
}

/// The snapshot after the difference was applied to it.
pub open spec fn applied(s: SnapshotView, d: DeltaView) -> SnapshotView {
    SnapshotView {
        seq: d.seq,
        mono_ns: d.mono_ns,
        run_id: d.run_id,
        activity_state: match d.activity_state {
            Some(state) => state,
            None => s.activity_state,
        },
        focus: if d.focus is Some {
            d.focus
        } else if d.focus_cleared {
            None
        } else {
            s.focus
        },
        last_transition: if d.last_transition is Some {
            d.last_transition
        } else {
            s.last_transition
        },
        transitions_recent: extended(s.transitions_recent, d.transitions_added),
        counts: match d.counts {
            Some(counts) => counts,
            None => s.counts,
        },
        cadence_ms: match d.cadence_ms {
            Some(ms) => ms,
            None => s.cadence_ms,
        },
        cadence_reason: match d.cadence_reason {
            Some(reason) => reason,
            None => s.cadence_reason,
        },
        next_timeout: if d.next_timeout is Some {
            d.next_timeout
        } else if d.next_timeout_cleared {
            None
        } else {
            s.next_timeout
        },
        storage: match d.storage {
            Some(storage) => storage,
            None => s.storage,
        },
        config: match d.config {
            Some(config) => config,
            None => s.config,
        },
        health: s.health + d.health_appended,
        aggregated_apps: if d.aggregated_apps_changed {
            d.aggregated_apps
        } else {
            s.aggregated_apps
        },
        title_revisions_recent: extended(s.title_revisions_recent, d.title_revisions_added),
        records: s.records,
    }
}

/// Puts items, given oldest first, in front of a newest-first list.
fn extend_recent<T: Item>(recent: &mut Vec<T>, added: &Vec<T>)
    ensures
        views(final(recent)@) == extended(views(old(recent)@), views(added@)),
{
    broadcast use group_views;

    let ghost was = views(recent@);
    let ghost more = views(added@);
    if added.len() > 0 {
        let mut list = copy_reversed(added, added.len());
        assert(more.take(more.len() as int) =~= more);
        let ghost front = views(list@);
        list.append(recent);
        assert(views(list@) =~= front + was);
        if list.len() > RECENT_LIMIT {
            let ghost all = list@;
            list.truncate(RECENT_LIMIT);
            assert(list@ =~= all.take(RECENT_LIMIT as int));
            assert(views(list@) =~= (more.reverse() + was).take(RECENT_LIMIT as int));
        }
        *recent = list;
    } else {
        assert(more.reverse() + was =~= was);
    }
}

/// Takes over a new value where there is one, and drops the old one where it was cleared.
fn update_opt<T: Item>(value: &mut Option<T>, cleared: bool, new: &Option<T>)
    ensures
        view_opt(*final(value)) == if new is Some {
            view_opt(*new)
        } else if cleared {
            None
        } else {
            view_opt(*old(value))
        },
{
    match new {
        Some(v) => {
            *value = Some(v.copied());
        },
        None => {
            if cleared {
                *value = None;
            }
        },
    }
}

fn update_text(value: &mut String, new: &Option<String>)
    ensures
        final(value)@ == match *new {
            Some(text) => text@,
            None => old(value)@,
        },
{
    match new {
        Some(text) => {
            *value = text.clone();
        },
        None => {},
    }
}

fn updated_time(value: Option<Timestamp>, cleared: bool, new: Option<Timestamp>) -> (r: Option<
    Timestamp,
>)
    ensures
        r == if new is Some {
            new
        } else if cleared {
            None
        } else {
            value
        },
{
    match new {
        Some(t) => Some(t),
        None => if cleared {
            None
        } else {
            value
        },
    }
}

fn append_items<T: Item>(list: &mut Vec<T>, more: &Vec<T>)
    ensures
        views(final(list)@) == views(old(list)@) + views(more@),
{
    broadcast use group_views;

    let ghost was = views(list@);
    let mut copies = copy_items(more, 0, more.len());
    let ghost added = views(copies@);
    assert(added =~= views(more@));
    list.append(&mut copies);
    assert(views(list@) =~= was + added);
}

impl Snapshot {
    /// A snapshot of nothing, taken when the clock read `mono_ns`.
    pub fn empty_at(mono_ns: u64) -> (r: Self)
        ensures
            r@ == empty_snapshot(mono_ns),
    {
        let r = Snapshot {
            seq: 0,
            mono_ns,
            run_id: None,
            activity_state: ActivityState::Inactive,
            focus: None,
            last_transition: None,
            transitions_recent: Vec::new(),
            counts: Counts::default(),
            cadence_ms: 0,
            cadence_reason: String::new(),
            next_timeout: None,
            storage: StorageInfo::default(),
            config: ConfigSummary::default(),
            health: Vec::new(),
            aggregated_apps: Vec::new(),
            title_revisions_recent: Vec::new(),
            records: Vec::new(),
        };
        assert(r@ =~= empty_snapshot(mono_ns));
        r
    }

    /// A snapshot of nothing.
    pub fn empty() -> (r: Self)
        ensures
            r@ == empty_snapshot(r.mono_ns),
    {
        Self::empty_at(monotonic_ns())
    }

    /// Brings the snapshot up to date.
    pub fn apply_delta(&mut self, delta: &SnapshotDelta)
        ensures
            final(self)@ == applied(old(self)@, delta@),
    {
        broadcast use group_views;

        let ghost was = self@;
        self.seq = delta.seq;
        self.mono_ns = delta.mono_ns;
        self.run_id = delta.run_id.clone();
        self.activity_state = delta.activity_state.unwrap_or(self.activity_state);
        update_opt(&mut self.focus, delta.focus_cleared, &delta.focus);
        update_opt(&mut self.last_transition, false, &delta.last_transition);
        extend_recent(&mut self.transitions_recent, &delta.transitions_added);
        self.counts = delta.counts.unwrap_or(self.counts);
        self.cadence_ms = delta.cadence_ms.unwrap_or(self.cadence_ms);
        update_text(&mut self.cadence_reason, &delta.cadence_reason);
        self.next_timeout = updated_time(
            self.next_timeout,
            delta.next_timeout_cleared,
            delta.next_timeout,
        );
        self.storage = delta.storage.unwrap_or(self.storage);
        self.config = delta.config.unwrap_or(self.config);
        append_items(&mut self.health, &delta.health_appended);
        if delta.aggregated_apps_changed {
            self.aggregated_apps = copy_items(
                &delta.aggregated_apps,
                0,
                delta.aggregated_apps.len(),
            );
            assert(views(self.aggregated_apps@) =~= views(delta.aggregated_apps@));
        }
        extend_recent(&mut self.title_revisions_recent, &delta.title_revisions_added);
        assert(self@ =~= applied(was, delta@));
    }
}

/// A snapshot of nothing.
pub open spec fn empty_snapshot(mono_ns: u64) -> SnapshotView {
    SnapshotView {
        seq: 0,
        mono_ns,
        run_id: None,
        activity_state: ActivityState::Inactive,
        focus: None,
        last_transition: None,
        transitions_recent: Seq::empty(),
        counts: (Counts { signals_seen: 0, hints_seen: 0, records_emitted: 0 }),
        cadence_ms: 0,
        cadence_reason: Seq::empty(),
        next_timeout: None,
        storage: (StorageInfo { backlog_count: 0, last_flush_at: None }),
        config: no_config(),
        health: Seq::empty(),
        aggregated_apps: Seq::empty(),
        title_revisions_recent: Seq::empty(),
        records: Seq::empty(),
    }
}

/// The time on the clock, in nanoseconds since the Unix epoch. Nothing is known of it.
pub fn monotonic_ns() -> u64 {
    clock_nanos()
}

/// A newest-first list can be brought up to date by what was put in front of it: it did not
/// change, or it grew within the limit, or it is replaced by a list of just the limit.
pub open spec fn list_replays<V>(previous: Seq<V>, current: Seq<V>) -> bool {
    ||| current == previous
    ||| current.len() <= RECENT_LIMIT && ends_with(current, previous)
    ||| current.len() == RECENT_LIMIT
}

/// When a newest-first list is brought up to date by a difference.
pub proof fn law_list_replays<V>(previous: Seq<V>, current: Seq<V>)
    ensures
        extended(previous, prepended(previous, current)) == current <==> list_replays(
            previous,
            current,
        ),
{
    let added = prepended(previous, current);
    let d = current.len() - previous.len();
    if d > 0 && ends_with(current, previous) {
        assert(added.reverse() =~= current.take(d));
        assert(added.reverse() + previous =~= current.take(d) + current.skip(d));
        assert(current.take(d) + current.skip(d) =~= current);
        if current.len() > RECENT_LIMIT {
            assert(current.take(RECENT_LIMIT as int).len() != current.len());
        }
    } else if current != previous {
        assert(added.reverse() =~= current);
        if current.len() == previous.len() && ends_with(current, previous) {
            assert(current.skip(0) =~= current);
        }
        let all = current + previous;
        if current.len() == 0 {
            assert(all =~= previous);
        } else if all.len() > RECENT_LIMIT {
            if current.len() == RECENT_LIMIT {
                assert(all.take(RECENT_LIMIT as int) =~= current);
            } else {
                assert(all.take(RECENT_LIMIT as int).len() != current.len());
            }
        } else {
            if previous.len() == 0 {
                assert(current.skip(current.len() as int) =~= previous);
            }
            assert(all.len() != current.len());
        }
    } else {
        assert(added.reverse() + previous =~= previous);
    }
}

/// When a list that grows at its end is brought up to date by a difference.
pub proof fn law_appended_replays<V>(previous: Seq<V>, current: Seq<V>)
    ensures
        previous + appended(previous, current) == current <==> starts_with(current, previous),
{
    let n = previous.len() as int;
    if starts_with(current, previous) {
        assert(previous + current.skip(n) =~= current.take(n) + current.skip(n));
        assert(current.take(n) + current.skip(n) =~= current);
    } else {
        if n == 0 {
            assert(current.take(0) =~= previous);
        }
        assert((previous + current).len() != current.len());
    }
}

/// A client that applies the difference of two snapshots to the first holds the second, exactly
/// where the records are the same, the last transition was not withdrawn, the health messages
/// only grew and the newest-first lists can be brought up to date.
pub proof fn law_delta_replays(previous: SnapshotView, current: SnapshotView)
    ensures
        applied(previous, full_delta(previous, current)) == current <==> {
            &&& previous.records == current.records
            &&& !(previous.last_transition is Some && current.last_transition is None)
            &&& starts_with(current.health, previous.health)
            &&& list_replays(previous.transitions_recent, current.transitions_recent)
            &&& list_replays(previous.title_revisions_recent, current.title_revisions_recent)
        },
{
    law_list_replays(previous.transitions_recent, current.transitions_recent);
    law_list_replays(previous.title_revisions_recent, current.title_revisions_recent);
    law_appended_replays(previous.health, current.health);
    let r = applied(previous, full_delta(previous, current));
    if previous.aggregated_apps == current.aggregated_apps {
        assert(r.aggregated_apps == current.aggregated_apps);
    }
    if {
        &&& previous.records == current.records
        &&& !(previous.last_transition is Some && current.last_transition is None)
        &&& starts_with(current.health, previous.health)
        &&& list_replays(previous.transitions_recent, current.transitions_recent)
        &&& list_replays(previous.title_revisions_recent, current.title_revisions_recent)
    } {
        assert(r =~= current);
    }
}

/// Whatever the two snapshots are, a client that applies their difference has the second one's
/// number, state, focus, counts, cadence, timeout, storage, configuration and applications.
pub proof fn law_delta_carries_state(previous: SnapshotView, current: SnapshotView)
    ensures
        ({
            let r = applied(previous, full_delta(previous, current));
            &&& r.seq == current.seq
            &&& r.mono_ns == current.mono_ns
            &&& r.run_id == current.run_id
            &&& r.activity_state == current.activity_state
            &&& r.focus == current.focus
            &&& r.counts == current.counts
            &&& r.cadence_ms == current.cadence_ms
            &&& r.cadence_reason == current.cadence_reason
            &&& r.next_timeout == current.next_timeout
            &&& r.storage == current.storage
            &&& r.config == current.config
            &&& r.aggregated_apps == current.aggregated_apps
        }),
{
}

/// Where no difference is reported, applying one would have changed the number, the time and the
/// run at most.
pub proof fn law_silence_means_no_change(previous: SnapshotView, current: SnapshotView)
    requires
        delta_of(previous, current) is None,
    ensures
        applied(previous, full_delta(previous, current)) == (SnapshotView {
            seq: current.seq,
            mono_ns: current.mono_ns,
            run_id: current.run_id,
            ..previous
        }),
{
    let d = full_delta(previous, current);
    let r = applied(previous, d);
    assert(r.health =~= previous.health);
    assert(r.transitions_recent =~= previous.transitions_recent);
    assert(r.title_revisions_recent =~= previous.title_revisions_recent);
}

/// Every change is told: where anything of a snapshot but its number, its time, its run or its
/// records differs, a difference is reported, unless the last transition was withdrawn and nothing
/// else; where nothing differs, none is.
pub proof fn law_every_change_is_told(previous: SnapshotView, current: SnapshotView)
    ensures
        ({
            let lists_same = previous.transitions_recent == current.transitions_recent
                && previous.title_revisions_recent == current.title_revisions_recent
                && previous.health == current.health;
            let fields_same = previous.activity_state == current.activity_state && previous.focus
                == current.focus && previous.counts == current.counts && previous.cadence_ms
                == current.cadence_ms && previous.cadence_reason == current.cadence_reason
                && previous.next_timeout == current.next_timeout && previous.storage
                == current.storage && previous.config == current.config
                && previous.aggregated_apps == current.aggregated_apps;
            &&& !fields_same ==> delta_of(previous, current) is Some
            &&& fields_same && lists_same && previous.last_transition == current.last_transition
                ==> delta_of(previous, current) is None
            &&& current.last_transition is Some && previous.last_transition
                != current.last_transition ==> delta_of(previous, current) is Some
            &&& current.transitions_recent.len() > 0 && previous.transitions_recent
                != current.transitions_recent ==> delta_of(previous, current) is Some
            &&& current.title_revisions_recent.len() > 0 && previous.title_revisions_recent
                != current.title_revisions_recent ==> delta_of(previous, current) is Some
            &&& current.health.len() > 0 && previous.health != current.health ==> delta_of(
                previous,
                current,
            ) is Some
        }),
        delta_of(previous, current) matches Some(d) ==> d.seq == current.seq && d.mono_ns
            == current.mono_ns && d.run_id == current.run_id,
{
    let d = full_delta(previous, current);
    let blank = blank_delta(current.seq, current.mono_ns, current.run_id);
    lemma_told_lists(previous.transitions_recent, current.transitions_recent);
    lemma_told_lists(previous.title_revisions_recent, current.title_revisions_recent);
    let n = previous.health.len() as int;
    if previous.health == current.health {
        assert(current.health.take(n) =~= previous.health);
        assert(current.health.skip(n) =~= Seq::empty());
    } else if current.health.len() > 0 && starts_with(current.health, previous.health) {
        if current.health.len() == n {
            assert(current.health.take(n) =~= current.health);
        }
        assert(current.health.skip(n).len() > 0);
    }
    assert(d.aggregated_apps_changed ==> d != blank);
    if previous.activity_state == current.activity_state && previous.focus == current.focus
        && previous.counts == current.counts && previous.cadence_ms == current.cadence_ms
        && previous.cadence_reason == current.cadence_reason && previous.next_timeout
        == current.next_timeout && previous.storage == current.storage && previous.config
        == current.config && previous.aggregated_apps == current.aggregated_apps
        && previous.transitions_recent == current.transitions_recent
        && previous.title_revisions_recent == current.title_revisions_recent && previous.health
        == current.health && previous.last_transition == current.last_transition {
        assert(d =~= blank);
    }
}

proof fn lemma_told_lists<V>(previous: Seq<V>, current: Seq<V>)
    ensures
        previous == current ==> prepended(previous, current) == Seq::<V>::empty(),
        previous != current && current.len() > 0 ==> prepended(previous, current).len() > 0,
{
}

} // verus!
