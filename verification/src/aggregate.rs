//! How long each application and window was in use, from the records of a period.

use crate::events::{FocusView, WindowFocusInfo};
use crate::grouping::{
    by_recency, earliest, grouped, kept, keys_of, latest, lemma_by_recency_views, lemma_distinct,
    lemma_grouped_push, lemma_kept, lemma_kept_sum, lemma_members, lemma_members_sum, members,
    seen_by, sort_by_recency, sum_of, LastSeen,
};
use crate::records::{ActivityRecord, RecordView};
use crate::time::Timestamp;
use crate::views::{lemma_take_all, lemma_take_succ, lemma_views_push, views};
use crate::window_groups::{
    ephemeral_groups, group_windows, keyed_secs, lasting, most_recent, normalize_title,
    temporal_groups, title_key, ungrouped, windows_fit, windows_only, KeyedView, KeyedWindow,
};
use std::sync::Arc;
use vstd::prelude::*;

verus! {

/// The use of one window.
#[derive(Debug)]
pub struct WindowActivity {
    pub window_id: u32,
    pub window_title: Arc<String>,
    pub duration_seconds: u64,
    pub first_seen: Timestamp,
    pub last_seen: Timestamp,
    pub record_count: u32,
}

/// The use of one process. No two windows share an identifier, and no two short-lived groups a
/// title.
#[derive(Debug)]
pub struct AggregatedActivity {
    pub app_name: Arc<String>,
    pub pid: i32,
    pub process_start_time: u64,
    pub windows: Vec<WindowActivity>,
    pub ephemeral_groups: Vec<EphemeralGroup>,
    pub temporal_groups: Vec<TemporalGroup>,
    pub total_duration_seconds: u64,
    pub first_seen: Timestamp,
    pub last_seen: Timestamp,
}

/// Short-lived windows that share a title.
#[derive(Debug)]
pub struct EphemeralGroup {
    pub title_key: String,
    pub distinct_ids: Vec<u32>,
    pub occurrence_count: u32,
    pub total_duration_seconds: u64,
    pub first_seen: Timestamp,
    pub last_seen: Timestamp,
}

/// Windows that share a title and were in use around the same time.
#[derive(Debug)]
pub struct TemporalGroup {
    pub title_key: String,
    pub distinct_ids: Vec<u32>,
    pub occurrence_count: u32,
    pub total_duration_seconds: u64,
    pub max_duration_seconds: u64,
    pub first_seen: Timestamp,
    pub last_seen: Timestamp,
    pub anchor_last_seen: Timestamp,
}

#[verifier::ext_equal]
pub struct WindowView {
    pub window_id: u32,
    pub window_title: Seq<char>,
    pub duration_seconds: int,
    pub first_seen: Timestamp,
    pub last_seen: Timestamp,
    pub record_count: int,
}

#[verifier::ext_equal]
pub struct EphemeralView {
    pub title_key: Seq<char>,
    pub distinct_ids: Seq<u32>,
    pub occurrence_count: int,
    pub total_duration_seconds: int,
    pub first_seen: Timestamp,
    pub last_seen: Timestamp,
}

#[verifier::ext_equal]
pub struct TemporalView {
    pub title_key: Seq<char>,
    pub distinct_ids: Seq<u32>,
    pub occurrence_count: int,
    pub total_duration_seconds: int,
    pub max_duration_seconds: int,
    pub first_seen: Timestamp,
    pub last_seen: Timestamp,
    pub anchor_last_seen: Timestamp,
}

#[verifier::ext_equal]
pub struct AppView {
    pub app_name: Seq<char>,
    pub pid: i32,
    pub process_start_time: u64,
    pub windows: Seq<WindowView>,
    pub ephemeral_groups: Seq<EphemeralView>,
    pub temporal_groups: Seq<TemporalView>,
    pub total_duration_seconds: int,
    pub first_seen: Timestamp,
    pub last_seen: Timestamp,
}

impl View for WindowActivity {
    type V = WindowView;

    open spec fn view(&self) -> WindowView {
        WindowView {
            window_id: self.window_id,
            window_title: self.window_title@,
            duration_seconds: self.duration_seconds as int,
            first_seen: self.first_seen,
            last_seen: self.last_seen,
            record_count: self.record_count as int,
        }
    }
}

impl View for EphemeralGroup {
    type V = EphemeralView;

    open spec fn view(&self) -> EphemeralView {
        EphemeralView {
            title_key: self.title_key@,
            distinct_ids: self.distinct_ids@,
            occurrence_count: self.occurrence_count as int,
            total_duration_seconds: self.total_duration_seconds as int,
            first_seen: self.first_seen,
            last_seen: self.last_seen,
        }
    }
}

impl View for TemporalGroup {
    type V = TemporalView;

    open spec fn view(&self) -> TemporalView {
        TemporalView {
            title_key: self.title_key@,
            distinct_ids: self.distinct_ids@,
            occurrence_count: self.occurrence_count as int,
            total_duration_seconds: self.total_duration_seconds as int,
            max_duration_seconds: self.max_duration_seconds as int,
            first_seen: self.first_seen,
            last_seen: self.last_seen,
            anchor_last_seen: self.anchor_last_seen,
        }
    }
}

impl View for AggregatedActivity {
    type V = AppView;

    open spec fn view(&self) -> AppView {
        AppView {
            app_name: self.app_name@,
            pid: self.pid,
            process_start_time: self.process_start_time,
            windows: views(self.windows@),
            ephemeral_groups: views(self.ephemeral_groups@),
            temporal_groups: views(self.temporal_groups@),
            total_duration_seconds: self.total_duration_seconds as int,
            first_seen: self.first_seen,
            last_seen: self.last_seen,
        }
    }
}

impl Clone for WindowActivity {
    fn clone(&self) -> (res: Self)
        ensures
            res@ == self@,
    {
        WindowActivity {
            window_id: self.window_id,
            window_title: self.window_title.clone(),
            duration_seconds: self.duration_seconds,
            first_seen: self.first_seen,
            last_seen: self.last_seen,
            record_count: self.record_count,
        }
    }
}

impl Clone for EphemeralGroup {
    fn clone(&self) -> (res: Self)
        ensures
            res@ == self@,
    {
        let distinct_ids = self.distinct_ids.clone();
        assert(distinct_ids@ =~= self.distinct_ids@);
        EphemeralGroup {
            title_key: self.title_key.clone(),
            distinct_ids,
            occurrence_count: self.occurrence_count,
            total_duration_seconds: self.total_duration_seconds,
            first_seen: self.first_seen,
            last_seen: self.last_seen,
        }
    }
}

impl Clone for TemporalGroup {
    fn clone(&self) -> (res: Self)
        ensures
            res@ == self@,
    {
        let distinct_ids = self.distinct_ids.clone();
        assert(distinct_ids@ =~= self.distinct_ids@);
        TemporalGroup {
            title_key: self.title_key.clone(),
            distinct_ids,
            occurrence_count: self.occurrence_count,
            total_duration_seconds: self.total_duration_seconds,
            max_duration_seconds: self.max_duration_seconds,
            first_seen: self.first_seen,
            last_seen: self.last_seen,
            anchor_last_seen: self.anchor_last_seen,
        }
    }
}

impl Clone for AggregatedActivity {
    fn clone(&self) -> (res: Self)
        ensures
            res@ == self@,
    {
        let windows = self.windows.clone();
        let ephemeral_groups = self.ephemeral_groups.clone();
        let temporal_groups = self.temporal_groups.clone();
        assert(views(windows@) =~= views(self.windows@));
        assert(views(ephemeral_groups@) =~= views(self.ephemeral_groups@));
        assert(views(temporal_groups@) =~= views(self.temporal_groups@));
        AggregatedActivity {
            app_name: self.app_name.clone(),
            pid: self.pid,
            process_start_time: self.process_start_time,
            windows,
            ephemeral_groups,
            temporal_groups,
            total_duration_seconds: self.total_duration_seconds,
            first_seen: self.first_seen,
            last_seen: self.last_seen,
        }
    }
}

impl LastSeen for WindowActivity {
    open spec fn seen(self) -> Timestamp {
        self.last_seen
    }

    fn last_seen(&self) -> (r: Timestamp) {
        self.last_seen
    }
}

impl LastSeen for AggregatedActivity {
    open spec fn seen(self) -> Timestamp {
        self.last_seen
    }

    fn last_seen(&self) -> (r: Timestamp) {
        self.last_seen
    }
}

/// The part of a record that falls into the period: at least one whole second of a focus.
#[verifier::ext_equal]
pub struct SliceView {
    pub focus: FocusView,
    pub start: Timestamp,
    pub end: Timestamp,
    pub secs: int,
}

/// The part of the record from `since` on. A record without an end lasts until `now`.
pub open spec fn slice_of(r: RecordView, since: Timestamp, now: Timestamp) -> Option<SliceView> {
    let start = r.start_time.later(since);
    let end = match r.end_time {
        Some(t) => t,
        None => now,
    };
    match r.focus_info {
        Some(focus) => if since.before(end) && end.secs_since(start) > 0 {
            Some(SliceView { focus, start, end, secs: end.secs_since(start) })
        } else {
            None
        },
        None => None,
    }
}

/// The parts of the records from `since` on, in order.
pub open spec fn slices(rs: Seq<RecordView>, since: Timestamp, now: Timestamp) -> Seq<SliceView>
    decreases rs.len(),
{
    if rs.len() == 0 {
        Seq::empty()
    } else {
        let before = slices(rs.drop_last(), since, now);
        match slice_of(rs.last(), since, now) {
            Some(s) => before.push(s),
            None => before,
        }
    }
}

/// What tells processes apart.
pub open spec fn app_key() -> spec_fn(SliceView) -> (i32, u64) {
    |s: SliceView| (s.focus.pid, s.focus.process_start_time)
}

/// What tells the windows of a process apart.
pub open spec fn window_key() -> spec_fn(SliceView) -> u32 {
    |s: SliceView| s.focus.window_id
}

/// Windows without a title or an identifier are not listed.
pub open spec fn has_window() -> spec_fn(SliceView) -> bool {
    |s: SliceView| s.focus.window_title.len() > 0 && s.focus.window_id > 0
}

pub open spec fn slice_secs() -> spec_fn(SliceView) -> int {
    |s: SliceView| s.secs
}

pub open spec fn slice_start() -> spec_fn(SliceView) -> Timestamp {
    |s: SliceView| s.start
}

pub open spec fn slice_end() -> spec_fn(SliceView) -> Timestamp {
    |s: SliceView| s.end
}

/// The use of a window, from its slices. It has the title that it had last.
pub open spec fn window_of(ss: Seq<SliceView>) -> WindowView {
    WindowView {
        window_id: ss[0].focus.window_id,
        window_title: ss.last().focus.window_title,
        duration_seconds: sum_of(ss, slice_secs()),
        first_seen: earliest(ss, slice_start()),
        last_seen: latest(ss, slice_end()),
        record_count: ss.len() as int,
    }
}

pub open spec fn make_window() -> spec_fn(Seq<SliceView>) -> WindowView {
    |ss: Seq<SliceView>| window_of(ss)
}

/// The windows of a process, in the order in which they were first used.
pub open spec fn windows_of(ss: Seq<SliceView>) -> Seq<WindowView> {
    grouped(kept(ss, has_window()), window_key(), make_window())
}

/// The use of a process, from its slices, before its windows are grouped.
pub open spec fn app_of(ss: Seq<SliceView>) -> AppView {
    AppView {
        app_name: ss[0].focus.app_name,
        pid: ss[0].focus.pid,
        process_start_time: ss[0].focus.process_start_time,
        windows: windows_of(ss),
        ephemeral_groups: Seq::empty(),
        temporal_groups: Seq::empty(),
        total_duration_seconds: sum_of(ss, slice_secs()),
        first_seen: earliest(ss, slice_start()),
        last_seen: latest(ss, slice_end()),
    }
}

pub open spec fn make_app() -> spec_fn(Seq<SliceView>) -> AppView {
    |ss: Seq<SliceView>| app_of(ss)
}

/// The use of each process, in the order in which the processes were first used.
pub open spec fn apps_of(ss: Seq<SliceView>) -> Seq<AppView> {
    grouped(ss, app_key(), make_app())
}

/// The slices of one window.
pub open spec fn window_slices(ss: Seq<SliceView>, id: u32) -> Seq<SliceView> {
    members(kept(ss, has_window()), window_key(), id)
}

/// The totals fit the counters: the seconds of one process, and the slices of one window.
pub open spec fn app_fits(ss: Seq<SliceView>) -> bool {
    &&& sum_of(ss, slice_secs()) <= u64::MAX
    &&& forall|id: u32| (#[trigger] window_slices(ss, id)).len() <= u32::MAX
}

/// The totals of every process fit the counters.
pub open spec fn totals_fit(ss: Seq<SliceView>) -> bool {
    forall|k: (i32, u64)| app_fits(#[trigger] members(ss, app_key(), k))
}

/// No slice lasts less than nothing.
pub open spec fn all_last(ss: Seq<SliceView>) -> bool {
    forall|i: int| 0 <= i < ss.len() ==> (#[trigger] ss[i]).secs >= 0
}

proof fn lemma_slices_last(rs: Seq<RecordView>, since: Timestamp, now: Timestamp)
    ensures
        all_last(slices(rs, since, now)),
    decreases rs.len(),
{
    if rs.len() > 0 {
        lemma_slices_last(rs.drop_last(), since, now);
    }
}

proof fn lemma_members_last<K>(ss: Seq<SliceView>, key: spec_fn(SliceView) -> K, k: K)
    requires
        all_last(ss),
    ensures
        all_last(members(ss, key, k)),
{
    lemma_members(ss, key, k);
    assert forall|i: int| 0 <= i < members(ss, key, k).len() implies (#[trigger] members(
        ss,
        key,
        k,
    )[i]).secs >= 0 by {
        assert(ss.contains(members(ss, key, k)[i]));
    }
}

proof fn lemma_kept_last(ss: Seq<SliceView>, keep: spec_fn(SliceView) -> bool)
    requires
        all_last(ss),
    ensures
        all_last(kept(ss, keep)),
{
    lemma_kept(ss, keep);
    assert forall|i: int| 0 <= i < kept(ss, keep).len() implies (#[trigger] kept(
        ss,
        keep,
    )[i]).secs >= 0 by {
        assert(ss.contains(kept(ss, keep)[i]));
    }
}

/// What fits with one more slice fits without it.
proof fn lemma_app_fits_shorter(ss: Seq<SliceView>, s: SliceView)
    requires
        app_fits(ss.push(s)),
        s.secs >= 0,
    ensures
        app_fits(ss),
{
    assert(ss.push(s).drop_last() =~= ss);
    assert forall|id: u32| (#[trigger] window_slices(ss, id)).len() <= u32::MAX by {
        let longer = window_slices(ss.push(s), id);
        if has_window()(s) {
            assert(kept(ss, has_window()).push(s).drop_last() =~= kept(ss, has_window()));
        }
        assert(longer.len() <= u32::MAX);
    }
}

proof fn lemma_totals_fit_shorter(ss: Seq<SliceView>, s: SliceView)
    requires
        totals_fit(ss.push(s)),
        s.secs >= 0,
    ensures
        totals_fit(ss),
{
    assert(ss.push(s).drop_last() =~= ss);
    assert forall|k: (i32, u64)| app_fits(#[trigger] members(ss, app_key(), k)) by {
        assert(app_fits(members(ss.push(s), app_key(), k)));
        if app_key()(s) == k {
            lemma_app_fits_shorter(members(ss, app_key(), k), s);
        }
    }
}

/// What fits for all records fits for the first `n` of them.
proof fn lemma_totals_fit_earlier(rs: Seq<RecordView>, since: Timestamp, now: Timestamp, n: int)
    requires
        0 <= n <= rs.len(),
        totals_fit(slices(rs, since, now)),
    ensures
        totals_fit(slices(rs.take(n), since, now)),
    decreases rs.len(),
{
    if n == rs.len() {
        lemma_take_all(rs);
    } else {
        let shorter = rs.drop_last();
        lemma_slices_last(rs, since, now);
        if slice_of(rs.last(), since, now) is Some {
            lemma_totals_fit_shorter(
                slices(shorter, since, now),
                slice_of(rs.last(), since, now)->0,
            );
        }
        lemma_totals_fit_earlier(shorter, since, now, n);
        assert(shorter.take(n) =~= rs.take(n));
    }
}

/// The part of a record that falls into the period.
pub struct Slice<'a> {
    pub focus: &'a WindowFocusInfo,
    pub start: Timestamp,
    pub end: Timestamp,
    pub secs: u64,
}

impl<'a> View for Slice<'a> {
    type V = SliceView;

    open spec fn view(&self) -> SliceView {
        SliceView {
            focus: self.focus@,
            start: self.start,
            end: self.end,
            secs: self.secs as int,
        }
    }
}

fn slice<'a>(record: &'a ActivityRecord, since: Timestamp, now: Timestamp) -> (r: Option<
    Slice<'a>,
>)
    ensures
        match r {
            Some(s) => slice_of(record@, since, now) == Some(s@),
            None => slice_of(record@, since, now) is None,
        },
{
    match &record.focus_info {
        Some(focus) => {
            let start = record.start_time.max_with(&since);
            let end = match record.end_time {
                Some(t) => t,
                None => now,
            };
            if !since.is_before(&end) {
                return None;
            }
            let secs: i64 = end.num_seconds_since(&start);
            if secs <= 0 {
                return None;
            }
            Some(Slice { focus, start, end, secs: secs as u64 })
        },
        None => None,
    }
}

proof fn lemma_window_push(ss: Seq<SliceView>, s: SliceView)
    requires
        ss.len() > 0,
    ensures
        window_of(ss.push(s)) == (WindowView {
            window_id: window_of(ss).window_id,
            window_title: s.focus.window_title,
            duration_seconds: window_of(ss).duration_seconds + s.secs,
            first_seen: window_of(ss).first_seen.earlier(s.start),
            last_seen: window_of(ss).last_seen.later(s.end),
            record_count: window_of(ss).record_count + 1,
        }),
{
    assert(ss.push(s).drop_last() =~= ss);
}

/// Adds a slice to the window that it belongs to, and a window where there is none.
fn absorb_window(windows: &mut Vec<WindowActivity>, s: &Slice, Ghost(ts): Ghost<Seq<SliceView>>)
    requires
        all_last(ts),
        views(old(windows)@) == grouped(ts, window_key(), make_window()),
        sum_of(ts, slice_secs()) + s@.secs <= u64::MAX,
        forall|id: u32|
            (#[trigger] members(ts.push(s@), window_key(), id)).len() <= u32::MAX,
    ensures
        views(final(windows)@) == grouped(ts.push(s@), window_key(), make_window()),
{
    broadcast use lemma_views_push;

    let ghost x = s@;
    let ghost ks = keys_of(ts, window_key());
    let ghost id = x.focus.window_id;
    let ghost before = views(windows@);
    proof {
        lemma_grouped_push(ts, x, window_key(), make_window());
        lemma_members(ts, window_key(), id);
        lemma_distinct(ts.map_values(window_key()));
        assert forall|j: int| 0 <= j < before.len() implies (#[trigger] before[j]).window_id
            == ks[j] by {
            lemma_members(ts, window_key(), ks[j]);
            assert(ks.contains(ks[j]));
        }
    }
    let mut i: usize = 0;
    while i < windows.len()
        invariant
            x == s@,
            before == views(windows@),
            i <= windows.len(),
            ks.len() == before.len(),
            id == x.focus.window_id,
            forall|j: int| 0 <= j < before.len() ==> (#[trigger] before[j]).window_id == ks[j],
            forall|j: int| 0 <= j < i ==> ks[j] != id,
        ensures
            i < windows.len() ==> ks[i as int] == id,
            i >= windows.len() ==> forall|j: int| 0 <= j < ks.len() ==> ks[j] != id,
        decreases windows.len() - i,
    {
        if windows[i].window_id == s.focus.window_id {
            assert(before[i as int].window_id == ks[i as int]);
            break;
        }
        assert(before[i as int].window_id == ks[i as int]);
        i += 1;
    }
    if i < windows.len() {
        let ghost ms = members(ts, window_key(), id);
        proof {
            assert(ks.contains(id));
            assert(ks.index_of(id) == i);
            assert(before[i as int] == window_of(ms));
            lemma_window_push(ms, x);
            lemma_members_sum(ts, window_key(), id, slice_secs());
            assert(members(ts.push(x), window_key(), id) == ms.push(x)) by {
                assert(ts.push(x).drop_last() =~= ts);
            }
        }
        let w = &mut windows[i];
        w.window_title = s.focus.window_title.clone();
        w.duration_seconds = w.duration_seconds + s.secs;
        w.first_seen = w.first_seen.min_with(&s.start);
        w.last_seen = w.last_seen.max_with(&s.end);
        w.record_count = w.record_count + 1;
        assert(views(windows@) =~= before.update(i as int, window_of(ms.push(x))));
    } else {
        assert(!ks.contains(id));
        windows.push(
            WindowActivity {
                window_id: s.focus.window_id,
                window_title: s.focus.window_title.clone(),
                duration_seconds: s.secs,
                first_seen: s.start,
                last_seen: s.end,
                record_count: 1,
            },
        );
        proof {
            let one = seq![x];
            assert(one.drop_last() =~= Seq::<SliceView>::empty());
            assert(sum_of(one.drop_last(), slice_secs()) == 0);
            assert(sum_of(one, slice_secs()) == x.secs);
            assert(views(windows@).last() == window_of(one));
        }
    }
}

proof fn lemma_app_push(ss: Seq<SliceView>, s: SliceView)
    requires
        ss.len() > 0,
    ensures
        app_of(ss.push(s)) == (AppView {
            windows: windows_of(ss.push(s)),
            total_duration_seconds: app_of(ss).total_duration_seconds + s.secs,
            first_seen: app_of(ss).first_seen.earlier(s.start),
            last_seen: app_of(ss).last_seen.later(s.end),
            ..app_of(ss)
        }),
        kept(ss.push(s), has_window()) == if has_window()(s) {
            kept(ss, has_window()).push(s)
        } else {
            kept(ss, has_window())
        },
{
    assert(ss.push(s).drop_last() =~= ss);
}

impl AggregatedActivity {
    /// Adds a slice to the process that it belongs to.
    fn absorb(&mut self, s: &Slice, Ghost(ss): Ghost<Seq<SliceView>>)
        requires
            ss.len() > 0,
            all_last(ss),
                old(self)@ == app_of(ss),
            app_fits(ss.push(s@)),
        ensures
            final(self)@ == app_of(ss.push(s@)),
    {
        proof {
            lemma_app_push(ss, s@);
            assert(ss.push(s@).drop_last() =~= ss);
        }
        self.total_duration_seconds = self.total_duration_seconds + s.secs;
        self.first_seen = self.first_seen.min_with(&s.start);
        self.last_seen = self.last_seen.max_with(&s.end);
        if !s.focus.window_title.as_str().is_empty() && s.focus.window_id > 0 {
            let ghost ts = kept(ss, has_window());
            proof {
                assert(has_window()(s@));
                lemma_kept_last(ss, has_window());
                lemma_kept_sum(ss, has_window(), slice_secs());
                assert forall|id: u32|
                    (#[trigger] members(ts.push(s@), window_key(), id)).len() <= u32::MAX by {
                    assert(window_slices(ss.push(s@), id).len() <= u32::MAX);
                }
            }
            absorb_window(&mut self.windows, s, Ghost(ts));
        } else {
            assert(!has_window()(s@));
        }
        assert(self@ =~= app_of(ss.push(s@)));
    }

    /// The process as its first slice shows it.
    fn start_with(s: &Slice) -> (r: Self)
        requires
                app_fits(seq![s@]),
        ensures
            r@ == app_of(seq![s@]),
    {
        let ghost one = seq![s@];
        let ghost none = Seq::<SliceView>::empty();
        let mut windows: Vec<WindowActivity> = Vec::new();
        proof {
            assert(one.drop_last() =~= none);
            assert(one =~= none.push(s@));
            assert(sum_of(one.drop_last(), slice_secs()) == 0);
            assert(sum_of(one, slice_secs()) == s@.secs);
            assert(kept(none, has_window()) =~= none);
            assert(views(windows@) =~= grouped(none, window_key(), make_window()));
        }
        if !s.focus.window_title.as_str().is_empty() && s.focus.window_id > 0 {
            proof {
                assert(has_window()(s@));
                assert forall|id: u32|
                    (#[trigger] members(none.push(s@), window_key(), id)).len() <= u32::MAX by {
                    assert(window_slices(one, id).len() <= u32::MAX);
                }
            }
            absorb_window(&mut windows, s, Ghost(none));
        } else {
            assert(!has_window()(s@));
        }
        let r = AggregatedActivity {
            app_name: s.focus.app_name.clone(),
            pid: s.focus.pid,
            process_start_time: s.focus.process_start_time,
            windows,
            ephemeral_groups: Vec::new(),
            temporal_groups: Vec::new(),
            total_duration_seconds: s.secs,
            first_seen: s.start,
            last_seen: s.end,
        };
        assert(r@ =~= app_of(one));
        r
    }
}

/// Adds a slice to the process that it belongs to, and a process where there is none.
pub(crate) fn absorb_slice(
    apps: &mut Vec<AggregatedActivity>,
    s: &Slice,
    Ghost(ss): Ghost<Seq<SliceView>>,
)
    requires
        all_last(ss),
        views(old(apps)@) == apps_of(ss),
        totals_fit(ss.push(s@)),
    ensures
        views(final(apps)@) == apps_of(ss.push(s@)),
{
    broadcast use lemma_views_push;

    let ghost x = s@;
    let ghost k = app_key()(x);
    let ghost ks = keys_of(ss, app_key());
    let ghost before = views(apps@);
    proof {
        lemma_grouped_push(ss, x, app_key(), make_app());
        lemma_distinct(ss.map_values(app_key()));
        assert forall|j: int| 0 <= j < before.len() implies ((#[trigger] before[j]).pid,
            before[j].process_start_time) == ks[j] by {
            lemma_members(ss, app_key(), ks[j]);
            assert(ks.contains(ks[j]));
        }
    }
    let mut i: usize = 0;
    while i < apps.len()
        invariant
            x == s@,
            k == (x.focus.pid, x.focus.process_start_time),
            before == views(apps@),
            i <= apps.len(),
            ks.len() == before.len(),
            forall|j: int|
                0 <= j < before.len() ==> ((#[trigger] before[j]).pid, before[j].process_start_time)
                    == ks[j],
            forall|j: int| 0 <= j < i ==> ks[j] != k,
        ensures
            i < apps.len() ==> ks[i as int] == k,
            i >= apps.len() ==> forall|j: int| 0 <= j < ks.len() ==> ks[j] != k,
        decreases apps.len() - i,
    {
        assert((before[i as int].pid, before[i as int].process_start_time) == ks[i as int]);
        if apps[i].pid == s.focus.pid && apps[i].process_start_time == s.focus.process_start_time {
            break;
        }
        i += 1;
    }
    proof {
        lemma_members(ss, app_key(), k);
        assert(ss.push(x).drop_last() =~= ss);
        assert(app_fits(members(ss.push(x), app_key(), k)));
    }
    if i < apps.len() {
        let ghost ms = members(ss, app_key(), k);
        proof {
            assert(ks.contains(k));
            assert(ks.index_of(k) == i);
            lemma_members_last(ss, app_key(), k);
            assert(before[i as int] == app_of(ms));
        }
        apps[i].absorb(s, Ghost(ms));
        assert(views(apps@) =~= before.update(i as int, app_of(ms.push(x))));
    } else {
        assert(!ks.contains(k));
        assert(members(ss.push(x), app_key(), k) =~= seq![x]);
        apps.push(AggregatedActivity::start_with(s));
    }
}

/// The use of each process in the period, before windows are grouped.
fn accumulate(records: &[ActivityRecord], since: Timestamp, now: Timestamp) -> (r: Vec<
    AggregatedActivity,
>)
    requires
        totals_fit(slices(views(records@), since, now)),
    ensures
        views(r@) == apps_of(slices(views(records@), since, now)),
{
    let ghost all = views(records@);
    let mut apps: Vec<AggregatedActivity> = Vec::new();
    let mut i: usize = 0;
    assert(views(apps@) =~= apps_of(slices(all.take(0), since, now)));
    while i < records.len()
        invariant
            all == views(records@),
            i <= records.len(),
            totals_fit(slices(all, since, now)),
            views(apps@) == apps_of(slices(all.take(i as int), since, now)),
        decreases records.len() - i,
    {
        proof {
            lemma_take_succ(all, i as int);
            lemma_totals_fit_earlier(all, since, now, i + 1);
            lemma_slices_last(all.take(i + 1), since, now);
            lemma_slices_last(all.take(i as int), since, now);
        }
        match slice(&records[i], since, now) {
            Some(s) => {
                absorb_slice(&mut apps, &s, Ghost(slices(all.take(i as int), since, now)));
            },
            None => {},
        }
        i += 1;
    }
    proof {
        lemma_take_all(all);
    }
    apps
}

/// A window with the key that its title is compared by.
pub open spec fn keyed(w: WindowView) -> KeyedView {
    KeyedView { key: title_key(w.window_title), window: w }
}

/// The windows with the keys that their titles are compared by.
pub open spec fn all_keyed(ws: Seq<WindowView>) -> Seq<KeyedView> {
    ws.map_values(|w: WindowView| keyed(w))
}

/// The use of a process with its windows sorted into groups.
pub open spec fn regrouped(app: AppView, limit: int, min: int, max: int) -> AppView {
    let ws = all_keyed(app.windows);
    AppView {
        windows: most_recent(windows_only(ungrouped(ws, limit, min)), max),
        ephemeral_groups: ephemeral_groups(ws, limit, min),
        temporal_groups: temporal_groups(lasting(ws, limit, min)),
        ..app
    }
}

pub open spec fn app_seen() -> spec_fn(AppView) -> Timestamp {
    |a: AppView| a.last_seen
}

/// The use of each process from `since` on, from the one used last to the one used first.
pub open spec fn aggregated(
    rs: Seq<RecordView>,
    since: Timestamp,
    now: Timestamp,
    limit: int,
    min: int,
    max: int,
) -> Seq<AppView> {
    by_recency(
        apps_of(slices(rs, since, now)).map_values(|a: AppView| regrouped(a, limit, min, max)),
        app_seen(),
    )
}

proof fn lemma_sum_update<T>(s: Seq<T>, i: int, t: T, amount: spec_fn(T) -> int)
    requires
        0 <= i < s.len(),
    ensures
        sum_of(s.update(i, t), amount) == sum_of(s, amount) - amount(s[i]) + amount(t),
    decreases s.len(),
{
    let u = s.update(i, t);
    if i == s.len() - 1 {
        assert(u.drop_last() =~= s.drop_last());
    } else {
        assert(u.drop_last() =~= s.drop_last().update(i, t));
        lemma_sum_update(s.drop_last(), i, t, amount);
    }
}

pub open spec fn window_view_secs() -> spec_fn(WindowView) -> int {
    |w: WindowView| w.duration_seconds
}

/// The windows together were in use as long as their slices last.
proof fn lemma_windows_sum(ts: Seq<SliceView>)
    requires
        all_last(ts),
    ensures
        sum_of(grouped(ts, window_key(), make_window()), window_view_secs()) == sum_of(
            ts,
            slice_secs(),
        ),
    decreases ts.len(),
{
    let ws = grouped(ts, window_key(), make_window());
    if ts.len() == 0 {
        assert(ws =~= Seq::empty());
    } else {
        let b = ts.drop_last();
        let x = ts.last();
        assert(forall|i: int| 0 <= i < b.len() ==> b[i] == ts[i]);
        lemma_windows_sum(b);
        assert(b.push(x) =~= ts);
        lemma_grouped_push(b, x, window_key(), make_window());
        let before = grouped(b, window_key(), make_window());
        if keys_of(b, window_key()).contains(window_key()(x)) {
            let i = keys_of(b, window_key()).index_of(window_key()(x));
            let ms = members(b, window_key(), window_key()(x));
            lemma_members(b, window_key(), window_key()(x));
            lemma_window_push(ms, x);
            lemma_sum_update(before, i, window_of(ms.push(x)), window_view_secs());
        } else {
            assert(ws.drop_last() =~= before);
            let one = seq![x];
            assert(one.drop_last() =~= Seq::<SliceView>::empty());
            assert(sum_of(one.drop_last(), slice_secs()) == 0);
        }
    }
}

proof fn lemma_keyed_sum(ws: Seq<WindowView>)
    ensures
        sum_of(all_keyed(ws), keyed_secs()) == sum_of(ws, window_view_secs()),
    decreases ws.len(),
{
    if ws.len() > 0 {
        lemma_keyed_sum(ws.drop_last());
        assert(all_keyed(ws).drop_last() =~= all_keyed(ws.drop_last()));
    }
}

/// There are no more nonzero identifiers than the type holds.
proof fn lemma_few_ids(ids: Seq<u32>)
    requires
        ids.no_duplicates(),
        forall|i: int| 0 <= i < ids.len() ==> ids[i] > 0,
    ensures
        ids.len() <= u32::MAX,
{
    let wide = ids.map_values(|id: u32| id as int);
    assert(wide.no_duplicates());
    wide.unique_seq_to_set();
    let all = vstd::set_lib::set_int_range(1, u32::MAX as int + 1);
    vstd::set_lib::lemma_int_range(1, u32::MAX as int + 1);
    assert(wide.to_set().subset_of(all));
    vstd::set_lib::lemma_len_subset(wide.to_set(), all);
}

/// The windows of a process whose totals fit can be grouped.
proof fn lemma_windows_fit(ss: Seq<SliceView>)
    requires
        all_last(ss),
        app_fits(ss),
    ensures
        windows_fit(all_keyed(windows_of(ss))),
{
    let ts = kept(ss, has_window());
    let ws = windows_of(ss);
    let ids = keys_of(ts, window_key());
    lemma_kept_last(ss, has_window());
    lemma_kept_sum(ss, has_window(), slice_secs());
    lemma_windows_sum(ts);
    lemma_keyed_sum(ws);
    lemma_distinct(ts.map_values(window_key()));
    lemma_kept(ss, has_window());
    assert forall|i: int| 0 <= i < ids.len() implies ids[i] > 0 by {
        lemma_members(ts, window_key(), ids[i]);
        assert(ids.contains(ids[i]));
        let m = members(ts, window_key(), ids[i])[0];
        assert(ts.contains(m));
        let j = choose|j: int| 0 <= j < ts.len() && ts[j] == m;
        assert(has_window()(ts[j]));
    }
    lemma_few_ids(ids);
    assert forall|i: int| 0 <= i < ws.len() implies (#[trigger] all_keyed(
        ws,
    )[i]).window.duration_seconds >= 0 by {
        let ms = members(ts, window_key(), ids[i]);
        lemma_members_last(ts, window_key(), ids[i]);
        assert(forall|j: int| 0 <= j < ms.len() ==> slice_secs()(#[trigger] ms[j]) >= 0);
        crate::grouping::lemma_sum_nonneg(ms, slice_secs());
    }
}

fn key_windows(windows: &Vec<WindowActivity>) -> (r: Vec<KeyedWindow>)
    ensures
        views(r@) == all_keyed(views(windows@)),
{
    broadcast use lemma_views_push;

    let ghost all = views(windows@);
    let mut out: Vec<KeyedWindow> = Vec::new();
    let mut i: usize = 0;
    assert(views(out@) =~= all_keyed(all.take(0)));
    while i < windows.len()
        invariant
            all == views(windows@),
            i <= windows.len(),
            views(out@) == all_keyed(all.take(i as int)),
        decreases windows.len() - i,
    {
        out.push(
            KeyedWindow {
                key: normalize_title(windows[i].window_title.as_str()),
                window: windows[i].clone(),
            },
        );
        i += 1;
        assert(all_keyed(all.take(i as int)) =~= all_keyed(all.take(i - 1)).push(
            keyed(all[i - 1]),
        ));
    }
    proof {
        lemma_take_all(all);
    }
    out
}

fn regroup(app: &AggregatedActivity, limit: u64, min: usize, max: usize) -> (r: AggregatedActivity)
    requires
        windows_fit(all_keyed(app@.windows)),
    ensures
        r@ == regrouped(app@, limit as int, min as int, max as int),
{
    let keyed_windows = key_windows(&app.windows);
    let groups = group_windows(&keyed_windows, limit, min, max);
    AggregatedActivity {
        app_name: app.app_name.clone(),
        pid: app.pid,
        process_start_time: app.process_start_time,
        windows: groups.windows,
        ephemeral_groups: groups.ephemeral_groups,
        temporal_groups: groups.temporal_groups,
        total_duration_seconds: app.total_duration_seconds,
        first_seen: app.first_seen,
        last_seen: app.last_seen,
    }
}

/// Whether the slices together are few and short enough for the counters. Where they are, the
/// records can be aggregated.
pub fn totals_fit_counters(records: &[ActivityRecord], since: Timestamp, now: Timestamp) -> (r:
    bool)
    ensures
        r == (sum_of(slices(views(records@), since, now), slice_secs()) <= u64::MAX && slices(
            views(records@),
            since,
            now,
        ).len() <= u32::MAX),
        r ==> totals_fit(slices(views(records@), since, now)),
{
    let ghost all = views(records@);
    let ghost every = slices(all, since, now);
    let mut total: u64 = 0;
    let mut count: u32 = 0;
    let mut i: usize = 0;
    while i < records.len()
        invariant
            all == views(records@),
            every == slices(all, since, now),
            i <= records.len(),
            total == sum_of(slices(all.take(i as int), since, now), slice_secs()),
            count == slices(all.take(i as int), since, now).len(),
        decreases records.len() - i,
    {
        let ghost before = slices(all.take(i as int), since, now);
        proof {
            lemma_take_succ(all, i as int);
            lemma_slices_grow(all, since, now, i + 1);
        }
        match slice(&records[i], since, now) {
            Some(s) => {
                assert(before.push(s@).drop_last() =~= before);
                match total.checked_add(s.secs) {
                    Some(t) => total = t,
                    None => return false,
                }
                if count == u32::MAX {
                    return false;
                }
                count = count + 1;
            },
            None => {},
        }
        i += 1;
    }
    proof {
        lemma_take_all(all);
        lemma_slices_last(all, since, now);
        assert(forall|j: int| 0 <= j < every.len() ==> slice_secs()(#[trigger] every[j]) >= 0);
        assert forall|k: (i32, u64)| app_fits(#[trigger] members(every, app_key(), k)) by {
            let ms = members(every, app_key(), k);
            lemma_members_sum(every, app_key(), k, slice_secs());
            lemma_members(every, app_key(), k);
            assert forall|id: u32| (#[trigger] window_slices(ms, id)).len() <= u32::MAX by {
                lemma_kept(ms, has_window());
                lemma_members(kept(ms, has_window()), window_key(), id);
            }
        }
    }
    true
}

/// Fewer records give no more slices, and no more seconds.
proof fn lemma_slices_grow(rs: Seq<RecordView>, since: Timestamp, now: Timestamp, n: int)
    requires
        0 <= n <= rs.len(),
    ensures
        slices(rs.take(n), since, now).len() <= slices(rs, since, now).len(),
        sum_of(slices(rs.take(n), since, now), slice_secs()) <= sum_of(
            slices(rs, since, now),
            slice_secs(),
        ),
    decreases rs.len(),
{
    if n == rs.len() {
        lemma_take_all(rs);
    } else {
        let b = rs.drop_last();
        lemma_slices_grow(b, since, now, n);
        assert(b.take(n) =~= rs.take(n));
        if slice_of(rs.last(), since, now) is Some {
            assert(slices(rs, since, now).drop_last() =~= slices(b, since, now));
        }
    }
}

/// The use of each process from `since` on, from the one used last to the one used first.
/// A record without an end lasts until `now`. Windows in use for less than
/// `short_thresh_secs` seconds are grouped by title where at least `ephemeral_min_distinct_ids`
/// share it; windows with the same title that were last seen at most an hour apart are grouped;
/// of the rest the `max_windows_per_app` seen last are listed.
pub fn aggregate_activities_since(
    records: &[ActivityRecord],
    since: Timestamp,
    now: Timestamp,
    short_thresh_secs: u64,
    ephemeral_min_distinct_ids: usize,
    max_windows_per_app: usize,
) -> (r: Vec<AggregatedActivity>)
    requires
        totals_fit(slices(views(records@), since, now)),
    ensures
        views(r@) == aggregated(
            views(records@),
            since,
            now,
            short_thresh_secs as int,
            ephemeral_min_distinct_ids as int,
            max_windows_per_app as int,
        ),
{
    broadcast use lemma_views_push;

    let ghost ss = slices(views(records@), since, now);
    let ghost make = |a: AppView|
        regrouped(
            a,
            short_thresh_secs as int,
            ephemeral_min_distinct_ids as int,
            max_windows_per_app as int,
        );
    let apps = accumulate(records, since, now);
    let mut out: Vec<AggregatedActivity> = Vec::new();
    let mut i: usize = 0;
    proof {
        lemma_slices_last(views(records@), since, now);
        assert(views(out@) =~= apps_of(ss).take(0).map_values(make));
    }
    while i < apps.len()
        invariant
            make == (|a: AppView|
                regrouped(
                    a,
                    short_thresh_secs as int,
                    ephemeral_min_distinct_ids as int,
                    max_windows_per_app as int,
                )),
            views(apps@) == apps_of(ss),
            all_last(ss),
            totals_fit(ss),
            i <= apps.len(),
            views(out@) == apps_of(ss).take(i as int).map_values(make),
        decreases apps.len() - i,
    {
        proof {
            let k = keys_of(ss, app_key())[i as int];
            lemma_members_last(ss, app_key(), k);
            assert(app_fits(members(ss, app_key(), k)));
            lemma_windows_fit(members(ss, app_key(), k));
            assert(apps_of(ss)[i as int] == app_of(members(ss, app_key(), k)));
            assert(views(apps@)[i as int] == apps@[i as int]@);
        }
        out.push(
            regroup(
                &apps[i],
                short_thresh_secs,
                ephemeral_min_distinct_ids,
                max_windows_per_app,
            ),
        );
        i += 1;
        assert(apps_of(ss).take(i as int).map_values(make) =~= apps_of(ss).take(i - 1).map_values(
            make,
        ).push(make(apps_of(ss)[i - 1])));
    }
    proof {
        lemma_take_all(apps_of(ss));
        lemma_by_recency_views(out@, seen_by::<AggregatedActivity>(), app_seen());
    }
    sort_by_recency(out)
}

pub open spec fn app_secs() -> spec_fn(AppView) -> int {
    |a: AppView| a.total_duration_seconds
}

/// No time is lost and none is counted twice: the processes together were in use exactly as long
/// as the slices last.
pub proof fn law_apps_share_out_the_time(ss: Seq<SliceView>)
    ensures
        sum_of(apps_of(ss), app_secs()) == sum_of(ss, slice_secs()),
    decreases ss.len(),
{
    let apps = apps_of(ss);
    if ss.len() == 0 {
        assert(apps =~= Seq::empty());
    } else {
        let b = ss.drop_last();
        let x = ss.last();
        law_apps_share_out_the_time(b);
        assert(b.push(x) =~= ss);
        lemma_grouped_push(b, x, app_key(), make_app());
        let before = apps_of(b);
        if keys_of(b, app_key()).contains(app_key()(x)) {
            let i = keys_of(b, app_key()).index_of(app_key()(x));
            let ms = members(b, app_key(), app_key()(x));
            lemma_members(b, app_key(), app_key()(x));
            lemma_app_push(ms, x);
            lemma_sum_update(before, i, app_of(ms.push(x)), app_secs());
        } else {
            assert(apps.drop_last() =~= before);
            let one = seq![x];
            assert(one.drop_last() =~= Seq::<SliceView>::empty());
            assert(sum_of(one.drop_last(), slice_secs()) == 0);
        }
    }
}

/// Every process appears once.
pub proof fn law_each_app_appears_once(ss: Seq<SliceView>, i: int, j: int)
    requires
        0 <= i < j < apps_of(ss).len(),
    ensures
        apps_of(ss)[i].pid != apps_of(ss)[j].pid || apps_of(ss)[i].process_start_time
            != apps_of(ss)[j].process_start_time,
{
    let ks = keys_of(ss, app_key());
    lemma_distinct(ss.map_values(app_key()));
    assert(ks.contains(ks[i]) && ks.contains(ks[j]));
    lemma_members(ss, app_key(), ks[i]);
    lemma_members(ss, app_key(), ks[j]);
    assert(ks[i] != ks[j]);
}

/// Every window of a process appears once, under a title and a nonzero identifier, and the
/// windows together were in use no longer than the process.
pub proof fn law_windows_of_an_app(ss: Seq<SliceView>)
    requires
        all_last(ss),
    ensures
        forall|i: int, j: int|
            0 <= i < j < windows_of(ss).len() ==> (#[trigger] windows_of(ss)[i]).window_id != (
            #[trigger] windows_of(ss)[j]).window_id,
        forall|i: int|
            0 <= i < windows_of(ss).len() ==> (#[trigger] windows_of(ss)[i]).window_id > 0
                && windows_of(ss)[i].window_title.len() > 0,
        sum_of(windows_of(ss), window_view_secs()) <= app_of(ss).total_duration_seconds,
{
    let ts = kept(ss, has_window());
    let ws = windows_of(ss);
    let ids = keys_of(ts, window_key());
    lemma_kept(ss, has_window());
    lemma_kept_last(ss, has_window());
    lemma_kept_sum(ss, has_window(), slice_secs());
    lemma_windows_sum(ts);
    lemma_distinct(ts.map_values(window_key()));
    assert forall|i: int| 0 <= i < ws.len() implies (#[trigger] ws[i]).window_id == ids[i]
        && ws[i].window_id > 0 && ws[i].window_title.len() > 0 by {
        let ms = members(ts, window_key(), ids[i]);
        assert(ids.contains(ids[i]));
        lemma_members(ts, window_key(), ids[i]);
        assert(ts.contains(ms[0]) && ts.contains(ms.last()));
        let a = choose|a: int| 0 <= a < ts.len() && ts[a] == ms[0];
        let b = choose|b: int| 0 <= b < ts.len() && ts[b] == ms.last();
        assert(has_window()(ts[a]) && has_window()(ts[b]));
    }
}

} // verus!
